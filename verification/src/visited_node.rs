//! The lenient layout pass: it fixes the representation where the declaration has
//! none, and numbers the variants of an enum around the discriminants that the
//! declaration already sets.

use vstd::prelude::*;
use crate::ast_node::{
    first_rejection, lemma_first_rejection_skips, repr_c, repr_c_attribute, repr_c_u8,
    repr_c_u8_attribute,
};
use crate::item::{
    attributes_view, is_name, variants_view, Attribute, AttributeView, Discriminant,
    EnumView, Item, ItemEnum, ItemStruct, ItemView, LayoutError, StructView, Variant, VariantView,
};

verus! {

/// The largest discriminant that a one-byte tag can hold.
pub const MAX_DISCRIMINANT: u64 = 255;

/// Whether one of the attributes sets a representation.
pub open spec fn has_repr(attrs: Seq<AttributeView>) -> bool {
    exists|i: int| 0 <= i < attrs.len() && (#[trigger] attrs[i]).path == "repr"@
}

/// The attributes, with the given representation added at the end where none of
/// them sets one.
pub open spec fn with_repr(attrs: Seq<AttributeView>, repr: AttributeView) -> Seq<
    AttributeView,
> {
    if has_repr(attrs) {
        attrs
    } else {
        attrs.push(repr)
    }
}

/// The number of the variant at `i`: the literal that it sets, else one more than
/// the number of the variant before it, else 0 for the first variant.
pub open spec fn number_at(variants: Seq<VariantView>, i: int) -> int
    decreases i,
{
    if i < 0 || i >= variants.len() {
        -1
    } else if let Discriminant::Literal(value) = variants[i].discriminant {
        value as int
    } else if i == 0 {
        0
    } else {
        number_at(variants, i - 1) + 1
    }
}

/// Why the variant at `i` cannot be numbered, if it cannot.
pub open spec fn number_rejection(variants: Seq<VariantView>, i: int) -> Option<LayoutError> {
    match variants[i].discriminant {
        Discriminant::Expression => Some(LayoutError::NonIntegerDiscriminant),
        Discriminant::Literal(value) => if value > MAX_DISCRIMINANT {
            Some(LayoutError::DiscriminantOutOfRange)
        } else {
            None
        },
        Discriminant::Implicit => if number_at(variants, i) > MAX_DISCRIMINANT {
            Some(LayoutError::DiscriminantOverflow)
        } else {
            None
        },
    }
}

/// The positions of the variants, in order.
pub open spec fn positions(variants: Seq<VariantView>) -> Seq<int> {
    Seq::new(variants.len(), |i: int| i)
}

/// Why the variants cannot be numbered, if they cannot: the rejection of the
/// first variant that has one.
pub open spec fn numbering_rejection(variants: Seq<VariantView>) -> Option<LayoutError> {
    first_rejection(positions(variants), |i: int| number_rejection(variants, i))
}

/// The variants, each with its number as its discriminant.
pub open spec fn with_numbers(variants: Seq<VariantView>) -> Seq<VariantView> {
    Seq::new(
        variants.len(),
        |i: int|
            VariantView {
                ident: variants[i].ident,
                discriminant: Discriminant::Literal(number_at(variants, i) as u64),
            },
    )
}

/// Why the lenient pass rejects a declaration, if it does.
pub open spec fn visit_rejection(item: ItemView) -> Option<LayoutError> {
    match item {
        ItemView::Struct(_) => None,
        ItemView::Enum(item) => numbering_rejection(item.variants),
        ItemView::Other => Some(LayoutError::NotANodeType),
    }
}

/// What the lenient pass makes of a declaration that it does not reject.
pub open spec fn visited(item: ItemView) -> ItemView {
    match item {
        ItemView::Struct(item) => ItemView::Struct(
            StructView {
                ident: item.ident,
                attrs: with_repr(item.attrs, repr_c()),
                fields: item.fields,
            },
        ),
        ItemView::Enum(item) => ItemView::Enum(
            EnumView {
                ident: item.ident,
                attrs: with_repr(item.attrs, repr_c_u8()),
                variants: with_numbers(item.variants),
            },
        ),
        ItemView::Other => ItemView::Other,
    }
}

/// Adds the given representation, unless the declaration sets one itself.
pub fn add_repr(attrs: &mut Vec<Attribute>, repr: Attribute)
    ensures
        attributes_view(final(attrs)@) == with_repr(attributes_view(old(attrs)@), repr@),
{
    let ghost declared = attributes_view(attrs@);
    let mut has_repr_attr = false;
    let mut i: usize = 0;
    while i < attrs.len()
        invariant
            0 <= i <= attrs.len(),
            declared == attributes_view(attrs@),
            has_repr_attr <==> exists|j: int| 0 <= j < i && (#[trigger] declared[j]).path == "repr"@,
        decreases attrs.len() - i,
    {
        assert(declared[i as int] == attrs@[i as int]@);
        if is_name(&attrs[i].path, "repr") {
            has_repr_attr = true;
        }
        i = i + 1;
    }
    if !has_repr_attr {
        attrs.push(repr);
        assert(attributes_view(attrs@) =~= declared.push(repr@));
    }
}

/// The lenient pass on a structure: `repr(C)` is added where the declaration
/// sets no representation.
pub fn modify_struct(item: &mut ItemStruct)
    ensures
        ItemView::Struct(final(item)@) == visited(ItemView::Struct(old(item)@)),
{
    add_repr(&mut item.attrs, repr_c_attribute());
}

/// Numbers the variants around the discriminants that they set.
pub fn number_variants(variants: &Vec<Variant>) -> (r: Result<Vec<Variant>, LayoutError>)
    ensures
        match numbering_rejection(variants_view(variants@)) {
            Some(error) => r == Err::<Vec<Variant>, LayoutError>(error),
            None => r is Ok && variants_view(r->Ok_0@) == with_numbers(variants_view(variants@)),
        },
{
    let ghost all = variants_view(variants@);
    let ghost check = |i: int| number_rejection(all, i);
    let mut out: Vec<Variant> = Vec::new();
    let mut next_discriminant: u64 = 0;
    let mut i: usize = 0;
    while i < variants.len()
        invariant
            0 <= i <= variants.len(),
            all == variants_view(variants@),
            check == (|i: int| number_rejection(all, i)),
            out@.len() == i,
            next_discriminant <= MAX_DISCRIMINANT + 1,
            next_discriminant == (if i == 0 {
                0
            } else {
                number_at(all, i - 1) + 1
            }),
            forall|j: int| 0 <= j < i ==> check(#[trigger] positions(all)[j]) is None,
            forall|j: int| 0 <= j < i ==> #[trigger] out@[j]@ == with_numbers(all)[j],
        decreases variants.len() - i,
    {
        assert(all[i as int] == variants@[i as int]@);
        assert(positions(all)[i as int] == i);
        let number: u64 = match variants[i].discriminant {
            Discriminant::Literal(value) => {
                if value > MAX_DISCRIMINANT {
                    proof {
                        lemma_first_rejection_skips(positions(all), check, i as int);
                    }
                    return Err(LayoutError::DiscriminantOutOfRange);
                }
                value
            },
            Discriminant::Expression => {
                proof {
                    lemma_first_rejection_skips(positions(all), check, i as int);
                }
                return Err(LayoutError::NonIntegerDiscriminant);
            },
            Discriminant::Implicit => {
                if next_discriminant > MAX_DISCRIMINANT {
                    proof {
                        lemma_first_rejection_skips(positions(all), check, i as int);
                    }
                    return Err(LayoutError::DiscriminantOverflow);
                }
                next_discriminant
            },
        };
        assert(number == number_at(all, i as int));
        out.push(
            Variant { ident: variants[i].ident.clone(), discriminant: Discriminant::Literal(number) },
        );
        next_discriminant = number + 1;
        i = i + 1;
    }
    proof {
        lemma_first_rejection_skips(positions(all), check, i as int);
        assert(variants_view(out@) =~= with_numbers(all));
    }
    Ok(out)
}

/// The lenient pass on an enum: `repr(C, u8)` is added where the declaration
/// sets no representation, and the variants are numbered.
pub fn modify_enum(item: &mut ItemEnum) -> (r: Result<(), LayoutError>)
    ensures
        match numbering_rejection(old(item)@.variants) {
            Some(error) => r == Err::<(), LayoutError>(error) && final(item)@ == old(item)@,
            None => r is Ok && ItemView::Enum(final(item)@) == visited(ItemView::Enum(old(item)@)),
        },
{
    let numbered = match number_variants(&item.variants) {
        Ok(numbered) => numbered,
        Err(error) => {
            return Err(error);
        },
    };
    add_repr(&mut item.attrs, repr_c_u8_attribute());
    item.variants = numbered;
    Ok(())
}

/// The lenient layout pass.
///
/// An item that is neither a structure nor an enum is rejected. A structure gets
/// `repr(C)` and an enum `repr(C, u8)` as its last attribute, unless it sets a
/// representation itself. Each variant of an enum gets a discriminant: the integer
/// literal that it sets, else one more than the discriminant of the variant before
/// it, else 0 for the first variant. The enum is rejected for the first variant, in
/// order, whose discriminant is no integer literal, or is a literal above 255, or
/// would have to be numbered above 255.
pub fn visited_node(item: Item) -> (r: Result<Item, LayoutError>)
    ensures
        match visit_rejection(item@) {
            Some(error) => r == Err::<Item, LayoutError>(error),
            None => r is Ok && r->Ok_0@ == visited(item@),
        },
{
    match item {
        Item::Struct(it) => {
            let mut it = it;
            modify_struct(&mut it);
            Ok(Item::Struct(it))
        },
        Item::Enum(it) => {
            let mut it = it;
            match modify_enum(&mut it) {
                Ok(()) => Ok(Item::Enum(it)),
                Err(error) => Err(error),
            }
        },
        Item::Other => Err(LayoutError::NotANodeType),
    }
}

} // verus!
