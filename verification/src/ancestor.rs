//! Ancestor records: non-owning descriptions of one edge between a node and its parent.

use vstd::prelude::*;

verus! {

/// One entry of the ancestry trail.
///
/// A record never owns the node it names. It holds the identity of the parent and
/// the selector of the parent's field that the cursor is currently inside.
#[derive(Clone, Copy, Debug, PartialEq, Eq, Structural)]
pub enum Ancestor {
    /// The permanent record below the root of the tree: the root has no parent.
    NoParent,
    /// The cursor is inside field `field` of the node `node`, whose node type has
    /// discriminant `kind`.
    Field { node: u64, kind: u8, field: u8 },
}

/// The packed discriminant of the record for field `field` of node type `kind`:
/// the node type in the high byte, the field selector in the low byte.
pub open spec fn packed(kind: u8, field: u8) -> u16 {
    (kind * 256 + field) as u16
}

/// The node type that a packed discriminant names.
pub open spec fn packed_kind(discriminant: u16) -> u8 {
    (discriminant / 256) as u8
}

/// The field selector that a packed discriminant names.
pub open spec fn packed_field(discriminant: u16) -> u8 {
    (discriminant % 256) as u8
}

/// Packing is injective: both parts can be read back.
pub proof fn lemma_packed_round_trip(kind: u8, field: u8)
    ensures
        packed_kind(packed(kind, field)) == kind,
        packed_field(packed(kind, field)) == field,
{
}

/// Computes the packed discriminant for `retag_stack`.
pub fn field_discriminant(kind: u8, field: u8) -> (d: u16)
    ensures
        d == packed(kind, field),
{
    let wide: u16 = kind as u16;
    let low: u16 = field as u16;
    wide * 256 + low
}

impl Ancestor {
    /// The record that stands for "no parent".
    pub fn no_parent() -> (a: Ancestor)
        ensures
            a == Ancestor::NoParent,
    {
        Ancestor::NoParent
    }

    /// The record for field `field` of the node `node` of type `kind`.
    pub fn of_field(node: u64, kind: u8, field: u8) -> (a: Ancestor)
        ensures
            a == (Ancestor::Field { node, kind, field }),
    {
        Ancestor::Field { node, kind, field }
    }

    /// Whether this is the "no parent" record.
    pub fn is_no_parent(&self) -> (b: bool)
        ensures
            b == (*self is NoParent),
    {
        match self {
            Ancestor::NoParent => true,
            Ancestor::Field { .. } => false,
        }
    }

    /// The identity of the parent node, if there is one.
    pub fn node(&self) -> (r: Option<u64>)
        ensures
            r == match *self {
                Ancestor::NoParent => None,
                Ancestor::Field { node, .. } => Some(node),
            },
    {
        match self {
            Ancestor::NoParent => None,
            Ancestor::Field { node, .. } => Some(*node),
        }
    }

    /// The packed discriminant of a field record; absent for the "no parent" record.
    pub fn discriminant(&self) -> (r: Option<u16>)
        ensures
            r == match *self {
                Ancestor::NoParent => None,
                Ancestor::Field { kind, field, .. } => Some(packed(kind, field)),
            },
    {
        match self {
            Ancestor::NoParent => None,
            Ancestor::Field { kind, field, .. } => Some(field_discriminant(*kind, *field)),
        }
    }

    /// Whether writing `discriminant` over this record's own keeps the node type:
    /// only such an overwrite is layout-compatible.
    pub open spec fn accepts(self, discriminant: u16) -> bool {
        self matches Ancestor::Field { kind, .. } && kind == packed_kind(discriminant)
    }

    /// This record with its discriminant overwritten; the parent's identity stays.
    pub open spec fn retagged(self, discriminant: u16) -> Ancestor {
        match self {
            Ancestor::NoParent => Ancestor::NoParent,
            Ancestor::Field { node, .. } => Ancestor::Field {
                node,
                kind: packed_kind(discriminant),
                field: packed_field(discriminant),
            },
        }
    }
}

/// Whether `trail` is a valid ancestry trail: the "no parent" record at the bottom,
/// and above it only field records.
pub open spec fn trail_well_formed(trail: Seq<Ancestor>) -> bool {
    &&& trail.len() >= 1
    &&& trail[0] is NoParent
    &&& forall|i: int| 1 <= i < trail.len() ==> #[trigger] trail[i] is Field
}

/// The number of tree levels above the cursor: the bottom record does not count.
pub open spec fn trail_depth(trail: Seq<Ancestor>) -> nat {
    if trail.len() == 0 {
        0
    } else {
        (trail.len() - 1) as nat
    }
}

/// The record `level` steps above the cursor; absent for level 0 and for every
/// level beyond the depth.
pub open spec fn trail_ancestor(trail: Seq<Ancestor>, level: nat) -> Option<Ancestor> {
    if 1 <= level <= trail_depth(trail) {
        Some(trail[trail.len() - level])
    } else {
        None
    }
}

/// The trail after descending into a field.
pub open spec fn trail_pushed(trail: Seq<Ancestor>, record: Ancestor) -> Seq<Ancestor> {
    trail.push(record)
}

/// The trail after leaving a field.
pub open spec fn trail_popped(trail: Seq<Ancestor>) -> Seq<Ancestor> {
    trail.drop_last()
}

/// The trail after moving to a sibling field: only the top record's discriminant
/// changes.
pub open spec fn trail_retagged(trail: Seq<Ancestor>, discriminant: u16) -> Seq<Ancestor> {
    trail.update(trail.len() - 1, trail.last().retagged(discriminant))
}

/// Moving to a sibling field by rewriting the top record's discriminant leaves the
/// trail as popping the record and pushing the sibling's record would, and once
/// the record is popped nothing of the difference is left.
pub proof fn lemma_retag_is_pop_then_push(trail: Seq<Ancestor>, discriminant: u16)
    requires
        trail_well_formed(trail),
        trail_depth(trail) > 0,
        trail.last().accepts(discriminant),
    ensures
        trail.last() matches Ancestor::Field { node, kind, .. } && trail_retagged(
            trail,
            discriminant,
        ) == trail_pushed(
            trail_popped(trail),
            Ancestor::Field { node, kind, field: packed_field(discriminant) },
        ),
        trail_popped(trail_retagged(trail, discriminant)) == trail_popped(trail),
        trail_well_formed(trail_retagged(trail, discriminant)),
{
    let retagged = trail_retagged(trail, discriminant);
    assert(trail.last() is Field);
    if let Ancestor::Field { node, kind, .. } = trail.last() {
        let record = Ancestor::Field { node, kind, field: packed_field(discriminant) };
        assert(retagged =~= trail_pushed(trail_popped(trail), record));
    }
    assert(trail_popped(retagged) =~= trail_popped(trail));
}

} // verus!
