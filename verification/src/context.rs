//! The traversal context: the ancestry trail of the node under visitation, and a
//! handle to the arena for building new nodes.

use vstd::prelude::*;
use oxc_allocator::Allocator;
use crate::ancestor::{
    trail_ancestor, trail_depth, trail_popped, trail_pushed, trail_retagged, trail_well_formed,
    Ancestor,
};

verus! {

/// `oxc_allocator::Allocator`, the bump arena. Opaque to the verifier.
#[verifier::external_type_specification]
#[verifier::external_body]
pub struct ExAllocator(oxc_allocator::Allocator);

/// `oxc_allocator::Box`, an owning handle to a value placed in the arena. Opaque
/// to the verifier.
#[verifier::external_type_specification]
#[verifier::external_body]
#[verifier::reject_recursive_types(T)]
pub struct ExArenaBox<'alloc, T: ?Sized>(oxc_allocator::Box<'alloc, T>);

/// `oxc_allocator::Box::new_in` moves a value into the arena and returns the
/// handle. Nothing is claimed of the handle: its contents are invisible here.
pub assume_specification<'alloc, T>[ oxc_allocator::Box::<'alloc, T>::new_in ](
    x: T,
    arena: &Allocator,
) -> (handle: oxc_allocator::Box<'alloc, T>)
;

const INITIAL_STACK_CAPACITY: usize = 64;

/// What a finder passed to `find_ancestor` answers for one record.
pub enum FinderRet<T> {
    /// Stop walking and yield the value.
    Found(T),
    /// Stop walking and yield nothing.
    Stop,
    /// Keep walking up.
    Continue,
}

/// Whether the finder may answer `Continue` for each of the `n` topmost records of
/// `trail`.
pub open spec fn continues_through<F: Fn(&Ancestor) -> FinderRet<O>, O>(
    finder: F,
    trail: Seq<Ancestor>,
    n: nat,
) -> bool {
    forall|i: int|
        trail.len() - n <= i < trail.len() ==> call_ensures(
            finder,
            (&#[trigger] trail[i],),
            FinderRet::<O>::Continue,
        )
}

/// Whether a search up `trail` can end with `result` after the finder was applied
/// to exactly the `examined` topmost records.
///
/// The finder is asked about one record after the other, the parent first, and
/// never about the bottom record. Every record before the last one examined was
/// answered with `Continue`. The search ends at the first `Found` (with its value),
/// at the first `Stop` (with nothing), or when the records above the bottom one are
/// used up (with nothing).
pub open spec fn search_ends<F: Fn(&Ancestor) -> FinderRet<O>, O>(
    finder: F,
    trail: Seq<Ancestor>,
    result: Option<O>,
    examined: nat,
) -> bool {
    &&& examined <= trail_depth(trail)
    &&& if examined == 0 {
        trail_depth(trail) == 0 && result is None
    } else {
        let last = trail[trail.len() - examined];
        &&& continues_through(finder, trail, (examined - 1) as nat)
        &&& match result {
            Some(value) => call_ensures(finder, (&last,), FinderRet::Found(value)),
            None => {
                ||| call_ensures(finder, (&last,), FinderRet::<O>::Stop)
                ||| examined == trail_depth(trail) && call_ensures(
                    finder,
                    (&last,),
                    FinderRet::<O>::Continue,
                )
            },
        }
    }
}

/// A finder that answers `Continue` whatever the record finds nothing, and is
/// asked about every record above the bottom one: as many records as the depth.
pub proof fn lemma_find_nothing_when_all_continue<F: Fn(&Ancestor) -> FinderRet<O>, O>(
    finder: F,
    trail: Seq<Ancestor>,
    result: Option<O>,
    examined: nat,
)
    requires
        trail_well_formed(trail),
        forall|record: Ancestor, answer: FinderRet<O>|
            call_ensures(finder, (&record,), answer) ==> answer is Continue,
        search_ends(finder, trail, result, examined),
    ensures
        result is None,
        examined == trail_depth(trail),
{
}

/// Traversal context, passed to every visitor callback.
///
/// Provides the ability to query the parent and the ancestors of the current node
/// and to allocate into the arena.
pub struct TraverseCtx<'a> {
    stack: Vec<Ancestor>,
    allocator: &'a Allocator,
}

impl<'a> View for TraverseCtx<'a> {
    type V = Seq<Ancestor>;

    /// The ancestry trail, bottom record first.
    closed spec fn view(&self) -> Seq<Ancestor> {
        self.stack@
    }
}

impl<'a> TraverseCtx<'a> {
    /// The invariant of the context: its trail is a valid ancestry trail. `new`
    /// establishes it and every operation keeps it.
    pub open spec fn well_formed(&self) -> bool {
        trail_well_formed(self@)
    }

    /// Creates a context bound to `allocator`, its trail holding the "no parent"
    /// record alone.
    pub fn new(allocator: &'a Allocator) -> (ctx: Self)
        ensures
            ctx@ == seq![Ancestor::NoParent],
            ctx.well_formed(),
    {
        let mut stack = Vec::with_capacity(INITIAL_STACK_CAPACITY);
        stack.push(Ancestor::NoParent);
        assert(stack@ =~= seq![Ancestor::NoParent]);
        Self { stack, allocator }
    }

    /// Allocates a value in the arena and returns the owning handle.
    pub fn allocate<T>(&self, node: T) -> oxc_allocator::Box<'a, T> {
        oxc_allocator::Box::new_in(node, self.allocator)
    }

    /// The parent of the current node: the top record of the trail. At the root of
    /// the tree this is the "no parent" record.
    pub fn parent(&self) -> (r: &Ancestor)
        requires
            self.well_formed(),
        ensures
            *r == self@.last(),
            trail_depth(self@) == 0 <==> *r is NoParent,
    {
        &self.stack[self.stack.len() - 1]
    }

    /// The record `level` levels above the current node; `ancestor(1)` is the
    /// parent of a node below the root. Absent where `level` is 0 or exceeds the
    /// depth.
    pub fn ancestor(&self, level: usize) -> (r: Option<&Ancestor>)
        requires
            self.well_formed(),
        ensures
            r == match trail_ancestor(self@, level as nat) {
                Some(a) => Some(&a),
                None => None,
            },
    {
        let len = self.stack.len();
        if level >= 1 && level < len {
            Some(&self.stack[len - level])
        } else {
            None
        }
    }

    /// Walks up the trail of ancestors to find a node.
    ///
    /// `finder` answers `FinderRet::Found(value)` to stop and yield `Some(value)`,
    /// `FinderRet::Stop` to stop and yield `None`, `FinderRet::Continue` to go on
    /// with the next record up. The walk starts at the parent and ends before the
    /// "no parent" record, so it takes at most as many steps as the depth.
    pub fn find_ancestor<F, O>(&self, finder: F) -> (r: Option<O>) where
        F: Fn(&Ancestor) -> FinderRet<O>,

        requires
            self.well_formed(),
            forall|i: int| 1 <= i < self@.len() ==> call_requires(finder, (&#[trigger] self@[i],)),
        ensures
            exists|examined: nat| search_ends(finder, self@, r, examined),
    {
        let len = self.stack.len();
        let mut level: usize = 1;
        while level < len
            invariant
                len == self.stack@.len(),
                1 <= level <= len,
                self.well_formed(),
                forall|i: int|
                    1 <= i < self@.len() ==> call_requires(finder, (&#[trigger] self@[i],)),
                continues_through(finder, self@, (level - 1) as nat),
            decreases len - level,
        {
            match finder(&self.stack[len - level]) {
                FinderRet::Found(value) => {
                    assert(search_ends(finder, self@, Some(value), level as nat));
                    return Some(value);
                },
                FinderRet::Stop => {
                    assert(search_ends(finder, self@, None::<O>, level as nat));
                    return None;
                },
                FinderRet::Continue => {},
            }
            level = level + 1;
        }
        assert(search_ends(finder, self@, None::<O>, (len - 1) as nat));
        None
    }

    /// The number of tree levels above the current node: 0 at the root.
    pub fn ancestors_depth(&self) -> (d: usize)
        requires
            self.well_formed(),
        ensures
            d == trail_depth(self@),
            d + 1 == self@.len(),
    {
        self.stack.len() - 1
    }

    /// Whether the trail holds the "no parent" record alone, as it does before and
    /// after a traversal.
    pub fn stack_is_empty(&self) -> (b: bool)
        requires
            self.well_formed(),
        ensures
            b == (self@ == seq![Ancestor::NoParent]),
            b == (trail_depth(self@) == 0),
    {
        assert(self@.len() == 1 ==> self@ =~= seq![Ancestor::NoParent]);
        self.stack.len() == 1
    }

    /// Pushes a record onto the trail, before descending into a field.
    pub fn push_stack(&mut self, ancestor: Ancestor)
        requires
            old(self).well_formed(),
            ancestor is Field,
        ensures
            final(self)@ == trail_pushed(old(self)@, ancestor),
            final(self).well_formed(),
    {
        self.stack.push(ancestor);
    }

    /// Pops the top record off the trail, after leaving a field.
    pub fn pop_stack(&mut self)
        requires
            old(self).well_formed(),
            trail_depth(old(self)@) > 0,
        ensures
            final(self)@ == trail_popped(old(self)@),
            final(self).well_formed(),
    {
        self.stack.pop();
        assert(self.stack@ =~= old(self).stack@.drop_last());
    }

    /// Overwrites the discriminant of the top record, on moving to a sibling field
    /// of the same parent.
    pub fn retag_stack(&mut self, discriminant: u16)
        requires
            old(self).well_formed(),
            trail_depth(old(self)@) > 0,
            old(self)@.last().accepts(discriminant),
        ensures
            final(self)@ == trail_retagged(old(self)@, discriminant),
            final(self).well_formed(),
    {
        let top = self.stack.len() - 1;
        let updated = match self.stack[top] {
            Ancestor::NoParent => Ancestor::NoParent,
            Ancestor::Field { node, .. } => Ancestor::Field {
                node,
                kind: (discriminant / 256) as u8,
                field: (discriminant % 256) as u8,
            },
        };
        self.stack[top] = updated;
    }
}

} // verus!
