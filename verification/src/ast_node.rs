//! Layout generation for node types: validation of the declaration, the fixed
//! representation, the numbering of variants, and the shadow type.

use vstd::prelude::*;
use crate::item::{
    attributes_view, copy_attribute, copy_variants, fields_view, is_name, names_view,
    variants_view, AttrStyle, Attribute, AttributeView, Discriminant, EnumView, Field, FieldView,
    Fields, FieldsView, Handle, Item, ItemEnum, ItemStruct, ItemView, LayoutError, StructView,
    Variant, VariantView,
};

verus! {

/// The largest number of variants that a node type may declare: with the
/// placeholder they use up the values of a one-byte tag.
pub const MAX_VARIANTS: usize = 255;

/// What layout generation makes of one node type.
#[derive(Debug, PartialEq, Eq)]
pub struct NodeLayout {
    /// The declaration with its representation fixed and, for an enum, its
    /// variants numbered.
    pub item: Item,
    /// The name of the private module that holds the shadow type.
    pub shadow_module: String,
    /// The shadow type, its outer attributes before its inner ones.
    pub shadow: Item,
}

/// The model of a `NodeLayout`.
pub struct NodeLayoutView {
    pub item: ItemView,
    pub shadow_module: Seq<char>,
    pub shadow: ItemView,
}

impl View for NodeLayout {
    type V = NodeLayoutView;

    open spec fn view(&self) -> NodeLayoutView {
        NodeLayoutView {
            item: self.item@,
            shadow_module: self.shadow_module@,
            shadow: self.shadow@,
        }
    }
}

/// What `str::to_lowercase` returns for the text `text`.
pub uninterp spec fn lowercase(text: Seq<char>) -> Seq<char>;

/// `str::to_lowercase`: the lowercase equivalent of the text, by Unicode's case
/// mapping. The contract only names the result.
#[verifier::external_body]
fn to_lowercase(text: &String) -> (lowered: String)
    ensures
        lowered@ == lowercase(text@),
{
    text.to_lowercase()
}

/// Whether the attribute derives `Clone` or `Copy`.
pub open spec fn derives_duplication(attr: AttributeView) -> bool {
    attr.path == "derive"@ && exists|i: int|
        0 <= i < attr.args.len() && (#[trigger] attr.args[i] == "Clone"@ || attr.args[i]
            == "Copy"@)
}

/// Why an attribute is rejected, if it is.
pub open spec fn attribute_rejection(attr: AttributeView) -> Option<LayoutError> {
    if derives_duplication(attr) {
        Some(LayoutError::DuplicationDerive)
    } else if attr.path == "repr"@ {
        Some(LayoutError::ReprAttribute)
    } else {
        None
    }
}

/// Why a variant is rejected, if it is.
pub open spec fn variant_rejection(variant: VariantView) -> Option<LayoutError> {
    if variant.ident == "Dummy"@ {
        Some(LayoutError::ReservedVariantName)
    } else if variant.discriminant != Discriminant::Implicit {
        Some(LayoutError::ExplicitDiscriminant)
    } else {
        None
    }
}

/// The rejection of the first entry that has one.
pub open spec fn first_rejection<T>(
    entries: Seq<T>,
    check: spec_fn(T) -> Option<LayoutError>,
) -> Option<LayoutError>
    decreases entries.len(),
{
    if entries.len() == 0 {
        None
    } else if check(entries[0]) is Some {
        check(entries[0])
    } else {
        first_rejection(entries.drop_first(), check)
    }
}

/// Why a structure declaration is rejected, if it is: for an attribute, else for
/// fields without names.
pub open spec fn struct_rejection(item: StructView) -> Option<LayoutError> {
    let by_attribute = first_rejection(item.attrs, |a: AttributeView| attribute_rejection(a));
    if by_attribute is Some {
        by_attribute
    } else if !(item.fields is Named) {
        Some(LayoutError::UnnamedFields)
    } else {
        None
    }
}

/// Why an enum declaration is rejected, if it is: for an attribute, else for the
/// number of its variants, else for a variant.
pub open spec fn enum_rejection(item: EnumView) -> Option<LayoutError> {
    let by_attribute = first_rejection(item.attrs, |a: AttributeView| attribute_rejection(a));
    if by_attribute is Some {
        by_attribute
    } else if item.variants.len() > MAX_VARIANTS {
        Some(LayoutError::TooManyVariants)
    } else {
        first_rejection(item.variants, |v: VariantView| variant_rejection(v))
    }
}

/// Why a declaration is rejected, if it is.
pub open spec fn rejection(item: ItemView) -> Option<LayoutError> {
    match item {
        ItemView::Struct(item) => struct_rejection(item),
        ItemView::Enum(item) => enum_rejection(item),
        ItemView::Other => Some(LayoutError::NotANodeType),
    }
}

/// The attribute that fixes the representation `repr(C)`.
pub open spec fn repr_c() -> AttributeView {
    AttributeView {
        style: AttrStyle::Outer,
        path: "repr"@,
        args: seq!["C"@],
        tokens: "#[repr(C)]"@,
    }
}

/// The attribute that fixes the representation `repr(C, u8)`.
pub open spec fn repr_c_u8() -> AttributeView {
    AttributeView {
        style: AttrStyle::Outer,
        path: "repr"@,
        args: seq!["C"@, "u8"@],
        tokens: "#[repr(C, u8)]"@,
    }
}

/// The variants of a node type with their numbers: the placeholder with 0 in
/// front, then the declared variants with 1, 2, ... in the order of declaration.
pub open spec fn numbered(variants: Seq<VariantView>) -> Seq<VariantView> {
    Seq::new(
        variants.len() + 1,
        |i: int|
            if i == 0 {
                VariantView { ident: "Dummy"@, discriminant: Discriminant::Literal(0) }
            } else {
                VariantView {
                    ident: variants[i - 1].ident,
                    discriminant: Discriminant::Literal(i as u64),
                }
            },
    )
}

/// The fields of the shadow type: the same fields in the same order, each owning
/// handle replaced by one that does not own.
pub open spec fn shadow_fields(fields: Seq<FieldView>) -> Seq<FieldView> {
    fields.map_values(
        |field: FieldView|
            FieldView {
                name: field.name,
                ty: field.ty,
                handle: if field.handle == Handle::Owning {
                    Handle::Shared
                } else {
                    field.handle
                },
            },
    )
}

/// The attributes with the outer ones moved before the inner ones, each group in
/// its own order.
pub open spec fn outer_first(attrs: Seq<AttributeView>) -> Seq<AttributeView> {
    attrs.filter(|a: AttributeView| a.style == AttrStyle::Outer) + attrs.filter(
        |a: AttributeView| a.style == AttrStyle::Inner,
    )
}

/// The structure declaration with its representation fixed.
pub open spec fn fixed_struct(item: StructView) -> StructView {
    StructView {
        ident: item.ident,
        attrs: item.attrs.push(repr_c()),
        fields: item.fields,
    }
}

/// The enum declaration with its representation fixed and its variants numbered.
pub open spec fn fixed_enum(item: EnumView) -> EnumView {
    EnumView {
        ident: item.ident,
        attrs: item.attrs.push(repr_c_u8()),
        variants: numbered(item.variants),
    }
}

/// The name of the shadow type of the node type `ident`.
pub open spec fn shadow_ident(ident: Seq<char>) -> Seq<char> {
    "Traversable"@ + ident
}

/// The shadow of a structure whose representation is fixed.
pub open spec fn shadow_of_struct(item: StructView) -> StructView {
    StructView {
        ident: shadow_ident(item.ident),
        attrs: outer_first(item.attrs),
        fields: match item.fields {
            FieldsView::Named(fields) => FieldsView::Named(shadow_fields(fields)),
            FieldsView::Unnamed => FieldsView::Unnamed,
            FieldsView::Unit => FieldsView::Unit,
        },
    }
}

/// The shadow of an enum whose representation is fixed and whose variants are
/// numbered.
pub open spec fn shadow_of_enum(item: EnumView) -> EnumView {
    EnumView {
        ident: shadow_ident(item.ident),
        attrs: outer_first(item.attrs),
        variants: item.variants,
    }
}

/// What layout generation makes of a declaration that it does not reject.
pub open spec fn layout_of(item: ItemView, lowered_ident: Seq<char>) -> NodeLayoutView {
    match item {
        ItemView::Struct(item) => NodeLayoutView {
            item: ItemView::Struct(fixed_struct(item)),
            shadow_module: "traversable_"@ + lowered_ident,
            shadow: ItemView::Struct(shadow_of_struct(fixed_struct(item))),
        },
        ItemView::Enum(item) => NodeLayoutView {
            item: ItemView::Enum(fixed_enum(item)),
            shadow_module: "traversable_"@ + lowered_ident,
            shadow: ItemView::Enum(shadow_of_enum(fixed_enum(item))),
        },
        ItemView::Other => NodeLayoutView {
            item: ItemView::Other,
            shadow_module: "traversable_"@ + lowered_ident,
            shadow: ItemView::Other,
        },
    }
}

/// The name of a declaration; empty for an item that has none.
pub open spec fn ident_of(item: ItemView) -> Seq<char> {
    match item {
        ItemView::Struct(item) => item.ident,
        ItemView::Enum(item) => item.ident,
        ItemView::Other => Seq::empty(),
    }
}

/// Where no entry before `i` is rejected, the first rejection is that of the
/// entries from `i` on.
pub proof fn lemma_first_rejection_skips<T>(
    entries: Seq<T>,
    check: spec_fn(T) -> Option<LayoutError>,
    i: int,
)
    requires
        0 <= i <= entries.len(),
        forall|j: int| 0 <= j < i ==> check(#[trigger] entries[j]) is None,
    ensures
        i == entries.len() ==> first_rejection(entries, check) is None,
        i < entries.len() && check(entries[i]) is Some ==> first_rejection(entries, check)
            == check(entries[i]),
    decreases i,
{
    if i > 0 {
        let rest = entries.drop_first();
        assert forall|j: int| 0 <= j < i - 1 implies check(#[trigger] rest[j]) is None by {
            assert(rest[j] == entries[j + 1]);
        }
        lemma_first_rejection_skips(rest, check, i - 1);
        if i < entries.len() {
            assert(rest[i - 1] == entries[i]);
        }
    }
}

/// Whether the name is that of an owning arena handle.
pub fn is_owning_handle(name: &str) -> (b: bool)
    ensures
        b == (name@ == "Box"@ || name@ == "Vec"@),
{
    let owned = name.to_owned();
    is_name(&owned, "Box") || is_name(&owned, "Vec")
}

/// Rejects an attribute that sets the representation.
pub fn validate_attribute(attr: &Attribute) -> (r: Result<(), LayoutError>)
    ensures
        r == if attr@.path == "repr"@ {
            Err::<(), LayoutError>(LayoutError::ReprAttribute)
        } else {
            Ok(())
        },
{
    if is_name(&attr.path, "repr") {
        Err(LayoutError::ReprAttribute)
    } else {
        Ok(())
    }
}

/// Rejects an attribute of a node type: one that derives `Clone` or `Copy`, or
/// one that sets the representation.
pub fn validate_struct_attribute(attr: &Attribute) -> (r: Result<(), LayoutError>)
    ensures
        r == match attribute_rejection(attr@) {
            Some(error) => Err::<(), LayoutError>(error),
            None => Ok(()),
        },
{
    if is_name(&attr.path, "derive") {
        let mut i: usize = 0;
        while i < attr.args.len()
            invariant
                0 <= i <= attr.args.len(),
                attr@.path == "derive"@,
                forall|j: int|
                    0 <= j < i ==> !(#[trigger] attr@.args[j] == "Clone"@ || attr@.args[j]
                        == "Copy"@),
            decreases attr.args.len() - i,
        {
            if is_name(&attr.args[i], "Clone") || is_name(&attr.args[i], "Copy") {
                assert(attr@.args[i as int] == attr.args@[i as int]@);
                assert(derives_duplication(attr@));
                return Err(LayoutError::DuplicationDerive);
            }
            assert(attr@.args[i as int] == attr.args@[i as int]@);
            i = i + 1;
        }
        assert(!derives_duplication(attr@));
    }
    validate_attribute(attr)
}

/// Rejects a variant that has the placeholder's name or sets its own discriminant.
pub fn validate_enum_variant(var: &Variant) -> (r: Result<(), LayoutError>)
    ensures
        r == match variant_rejection(var@) {
            Some(error) => Err::<(), LayoutError>(error),
            None => Ok(()),
        },
{
    if is_name(&var.ident, "Dummy") {
        return Err(LayoutError::ReservedVariantName);
    }
    match var.discriminant {
        Discriminant::Implicit => Ok(()),
        _ => Err(LayoutError::ExplicitDiscriminant),
    }
}

/// Rejects the first attribute that `validate_struct_attribute` rejects.
pub fn validate_attributes(attrs: &Vec<Attribute>) -> (r: Result<(), LayoutError>)
    ensures
        r == match first_rejection(
            attributes_view(attrs@),
            |a: AttributeView| attribute_rejection(a),
        ) {
            Some(error) => Err::<(), LayoutError>(error),
            None => Ok(()),
        },
{
    let ghost check = |a: AttributeView| attribute_rejection(a);
    let mut i: usize = 0;
    while i < attrs.len()
        invariant
            0 <= i <= attrs.len(),
            check == (|a: AttributeView| attribute_rejection(a)),
            forall|j: int| 0 <= j < i ==> check(#[trigger] attributes_view(attrs@)[j]) is None,
        decreases attrs.len() - i,
    {
        let verdict = validate_struct_attribute(&attrs[i]);
        assert(attributes_view(attrs@)[i as int] == attrs@[i as int]@);
        if let Err(error) = verdict {
            proof {
                lemma_first_rejection_skips(attributes_view(attrs@), check, i as int);
            }
            return Err(error);
        }
        i = i + 1;
    }
    proof {
        lemma_first_rejection_skips(attributes_view(attrs@), check, i as int);
    }
    Ok(())
}

/// Rejects the first variant that `validate_enum_variant` rejects.
pub fn validate_variants(variants: &Vec<Variant>) -> (r: Result<(), LayoutError>)
    ensures
        r == match first_rejection(
            variants_view(variants@),
            |v: VariantView| variant_rejection(v),
        ) {
            Some(error) => Err::<(), LayoutError>(error),
            None => Ok(()),
        },
{
    let ghost check = |v: VariantView| variant_rejection(v);
    let mut i: usize = 0;
    while i < variants.len()
        invariant
            0 <= i <= variants.len(),
            check == (|v: VariantView| variant_rejection(v)),
            forall|j: int| 0 <= j < i ==> check(#[trigger] variants_view(variants@)[j]) is None,
        decreases variants.len() - i,
    {
        let verdict = validate_enum_variant(&variants[i]);
        assert(variants_view(variants@)[i as int] == variants@[i as int]@);
        if let Err(error) = verdict {
            proof {
                lemma_first_rejection_skips(variants_view(variants@), check, i as int);
            }
            return Err(error);
        }
        i = i + 1;
    }
    proof {
        lemma_first_rejection_skips(variants_view(variants@), check, i as int);
    }
    Ok(())
}

/// The attribute `repr(C)`, which fixes the order of the fields.
pub fn repr_c_attribute() -> (attr: Attribute)
    ensures
        attr@ == repr_c(),
{
    let mut args: Vec<String> = Vec::new();
    args.push("C".to_owned());
    assert(names_view(args@) =~= seq!["C"@]);
    Attribute {
        style: AttrStyle::Outer,
        path: "repr".to_owned(),
        args,
        tokens: "#[repr(C)]".to_owned(),
    }
}

/// The attribute `repr(C, u8)`, which fixes the order of the fields and a tag of
/// one byte.
pub fn repr_c_u8_attribute() -> (attr: Attribute)
    ensures
        attr@ == repr_c_u8(),
{
    let mut args: Vec<String> = Vec::new();
    args.push("C".to_owned());
    args.push("u8".to_owned());
    assert(names_view(args@) =~= seq!["C"@, "u8"@]);
    Attribute {
        style: AttrStyle::Outer,
        path: "repr".to_owned(),
        args,
        tokens: "#[repr(C, u8)]".to_owned(),
    }
}

/// The attributes in the order in which a shadow type carries them: the outer
/// ones, then the inner ones.
pub fn split_attributes(attrs: &Vec<Attribute>) -> (ordered: Vec<Attribute>)
    ensures
        attributes_view(ordered@) == outer_first(attributes_view(attrs@)),
{
    let ghost all = attributes_view(attrs@);
    let ghost is_outer = |a: AttributeView| a.style == AttrStyle::Outer;
    let ghost is_inner = |a: AttributeView| a.style == AttrStyle::Inner;
    let mut outer: Vec<Attribute> = Vec::new();
    let mut inner: Vec<Attribute> = Vec::new();
    let mut i: usize = 0;
    assert(all.take(0) =~= Seq::empty());
    proof {
        reveal(Seq::filter);
    }
    while i < attrs.len()
        invariant
            0 <= i <= attrs.len(),
            all == attributes_view(attrs@),
            is_outer == (|a: AttributeView| a.style == AttrStyle::Outer),
            is_inner == (|a: AttributeView| a.style == AttrStyle::Inner),
            attributes_view(outer@) == all.take(i as int).filter(is_outer),
            attributes_view(inner@) == all.take(i as int).filter(is_inner),
        decreases attrs.len() - i,
    {
        let copy = copy_attribute(&attrs[i]);
        proof {
            reveal(Seq::filter);
            assert(all.take(i + 1).drop_last() =~= all.take(i as int));
            assert(all.take(i + 1).last() == attrs@[i as int]@);
        }
        let ghost outer_before = attributes_view(outer@);
        let ghost inner_before = attributes_view(inner@);
        match copy.style {
            AttrStyle::Outer => {
                outer.push(copy);
                assert(attributes_view(outer@) =~= outer_before.push(copy@));
            },
            AttrStyle::Inner => {
                inner.push(copy);
                assert(attributes_view(inner@) =~= inner_before.push(copy@));
            },
        }
        i = i + 1;
    }
    assert(all.take(attrs.len() as int) =~= all);
    let ghost outer_view = attributes_view(outer@);
    let mut k: usize = 0;
    while k < inner.len()
        invariant
            0 <= k <= inner.len(),
            attributes_view(outer@) == outer_view + attributes_view(inner@).take(k as int),
        decreases inner.len() - k,
    {
        let ghost before = attributes_view(outer@);
        let copy = copy_attribute(&inner[k]);
        outer.push(copy);
        assert(attributes_view(outer@) =~= before.push(copy@));
        assert(attributes_view(inner@).take(k + 1) =~= attributes_view(inner@).take(k as int).push(
            inner@[k as int]@,
        ));
        k = k + 1;
    }
    assert(attributes_view(inner@).take(inner.len() as int) =~= attributes_view(inner@));
    outer
}

/// The shadow's field for a field of the node type: the owning handle gives way
/// to one that does not own.
pub fn transform_struct_field(field: &Field) -> (shadow: Field)
    ensures
        shadow@ == (FieldView {
            name: field@.name,
            ty: field@.ty,
            handle: if field@.handle == Handle::Owning {
                Handle::Shared
            } else {
                field@.handle
            },
        }),
{
    let handle = match field.handle {
        Handle::Owning => Handle::Shared,
        Handle::Inline => Handle::Inline,
        Handle::Shared => Handle::Shared,
    };
    Field { name: field.name.clone(), ty: field.ty.clone(), handle }
}

/// The shadow's fields for the fields of a structure, which must have names.
pub fn transform_struct_fields(fields: &Fields) -> (r: Result<Vec<Field>, LayoutError>)
    ensures
        match fields@ {
            FieldsView::Named(named) => r is Ok && fields_view(r->Ok_0@) == shadow_fields(named),
            _ => r == Err::<Vec<Field>, LayoutError>(LayoutError::UnnamedFields),
        },
{
    match fields {
        Fields::Named(named) => {
            let mut shadow: Vec<Field> = Vec::new();
            let mut i: usize = 0;
            while i < named.len()
                invariant
                    0 <= i <= named.len(),
                    shadow@.len() == i,
                    forall|j: int|
                        0 <= j < i ==> #[trigger] shadow@[j]@ == shadow_fields(
                            fields_view(named@),
                        )[j],
                decreases named.len() - i,
            {
                shadow.push(transform_struct_field(&named[i]));
                i = i + 1;
            }
            assert(fields_view(shadow@) =~= shadow_fields(fields_view(named@)));
            Ok(shadow)
        },
        _ => Err(LayoutError::UnnamedFields),
    }
}

/// The name of the shadow type of the node type `ident`.
pub fn shadow_name(ident: &String) -> (name: String)
    ensures
        name@ == shadow_ident(ident@),
{
    "Traversable".to_owned().concat(ident.as_str())
}

/// The shadow type of a structure whose representation is fixed.
pub fn generate_traversable_struct(item: &ItemStruct) -> (r: Result<ItemStruct, LayoutError>)
    ensures
        match item@.fields {
            FieldsView::Named(_) => r is Ok && r->Ok_0@ == shadow_of_struct(item@),
            _ => r == Err::<ItemStruct, LayoutError>(LayoutError::UnnamedFields),
        },
{
    let ident = shadow_name(&item.ident);
    let attrs = split_attributes(&item.attrs);
    match transform_struct_fields(&item.fields) {
        Ok(fields) => Ok(ItemStruct { ident, attrs, fields: Fields::Named(fields) }),
        Err(error) => Err(error),
    }
}

/// The shadow type of an enum whose representation is fixed and whose variants
/// are numbered.
pub fn generate_traversable_enum(item: &ItemEnum) -> (shadow: ItemEnum)
    ensures
        shadow@ == shadow_of_enum(item@),
{
    ItemEnum {
        ident: shadow_name(&item.ident),
        attrs: split_attributes(&item.attrs),
        variants: copy_variants(&item.variants),
    }
}

/// The name of the private module that holds the shadow type, from the node
/// type's name in lowercase.
pub fn shadow_module_name(lowered_ident: &String) -> (name: String)
    ensures
        name@ == "traversable_"@ + lowered_ident@,
{
    "traversable_".to_owned().concat(lowered_ident.as_str())
}

/// Numbers the variants of a node type: the placeholder gets 0, the declared
/// variants get 1, 2, ... in the order of declaration.
pub fn number_variants(variants: &Vec<Variant>) -> (out: Vec<Variant>)
    requires
        variants.len() <= MAX_VARIANTS,
    ensures
        variants_view(out@) == numbered(variants_view(variants@)),
{
    let mut out: Vec<Variant> = Vec::new();
    out.push(Variant { ident: "Dummy".to_owned(), discriminant: Discriminant::Literal(0) });
    let mut i: usize = 0;
    while i < variants.len()
        invariant
            0 <= i <= variants.len() <= MAX_VARIANTS,
            out@.len() == i + 1,
            forall|j: int|
                0 <= j <= i ==> #[trigger] out@[j]@ == numbered(variants_view(variants@))[j],
        decreases variants.len() - i,
    {
        let number: u64 = (i + 1) as u64;
        out.push(
            Variant { ident: variants[i].ident.clone(), discriminant: Discriminant::Literal(number) },
        );
        i = i + 1;
    }
    assert(variants_view(out@) =~= numbered(variants_view(variants@)));
    out
}

/// Layout generation for a structure.
pub fn modify_struct(item: ItemStruct) -> (r: Result<NodeLayout, LayoutError>)
    ensures
        match struct_rejection(item@) {
            Some(error) => r == Err::<NodeLayout, LayoutError>(error),
            None => r is Ok && r->Ok_0@ == layout_of(
                ItemView::Struct(item@),
                lowercase(item@.ident),
            ),
        },
{
    let mut item = item;
    let ghost declared = item@;
    if let Err(error) = validate_attributes(&item.attrs) {
        return Err(error);
    }
    let ghost attrs_before = attributes_view(item.attrs@);
    item.attrs.push(repr_c_attribute());
    assert(attributes_view(item.attrs@) =~= attrs_before.push(repr_c()));
    assert(item@ == fixed_struct(declared));
    let shadow = match generate_traversable_struct(&item) {
        Ok(shadow) => shadow,
        Err(error) => {
            return Err(error);
        },
    };
    let shadow_module = shadow_module_name(&to_lowercase(&item.ident));
    Ok(NodeLayout { item: Item::Struct(item), shadow_module, shadow: Item::Struct(shadow) })
}

/// Layout generation for an enum.
pub fn modify_enum(item: ItemEnum) -> (r: Result<NodeLayout, LayoutError>)
    ensures
        match enum_rejection(item@) {
            Some(error) => r == Err::<NodeLayout, LayoutError>(error),
            None => r is Ok && r->Ok_0@ == layout_of(ItemView::Enum(item@), lowercase(item@.ident)),
        },
{
    let mut item = item;
    let ghost declared = item@;
    if let Err(error) = validate_attributes(&item.attrs) {
        return Err(error);
    }
    if item.variants.len() > MAX_VARIANTS {
        return Err(LayoutError::TooManyVariants);
    }
    if let Err(error) = validate_variants(&item.variants) {
        return Err(error);
    }
    let ghost attrs_before = attributes_view(item.attrs@);
    item.attrs.push(repr_c_u8_attribute());
    assert(attributes_view(item.attrs@) =~= attrs_before.push(repr_c_u8()));
    item.variants = number_variants(&item.variants);
    assert(item@ == fixed_enum(declared));
    let shadow = generate_traversable_enum(&item);
    let shadow_module = shadow_module_name(&to_lowercase(&item.ident));
    Ok(NodeLayout { item: Item::Enum(item), shadow_module, shadow: Item::Enum(shadow) })
}

/// Layout generation for a node type.
///
/// A declaration is rejected for the first of these that holds: it is neither a
/// structure nor an enum; one of its attributes, in order, derives `Clone` or
/// `Copy` or sets the representation; it is a structure whose fields have no
/// names; it is an enum with more than 255 variants; one of its variants, in
/// order, is named `Dummy` or sets its own discriminant.
///
/// Otherwise the declaration gets `repr(C)`, or `repr(C, u8)` for an enum, as its
/// last attribute; an enum gets the placeholder `Dummy` with discriminant 0 as its
/// first variant and the discriminants 1, 2, ... on its own variants; and the
/// shadow type `Traversable` + name is made for the private module `traversable_`
/// + the name in lowercase.
pub fn ast_node(item: Item) -> (r: Result<NodeLayout, LayoutError>)
    ensures
        match rejection(item@) {
            Some(error) => r == Err::<NodeLayout, LayoutError>(error),
            None => r is Ok && r->Ok_0@ == layout_of(item@, lowercase(ident_of(item@))),
        },
{
    match item {
        Item::Struct(it) => modify_struct(it),
        Item::Enum(it) => modify_enum(it),
        Item::Other => Err(LayoutError::NotANodeType),
    }
}

} // verus!
