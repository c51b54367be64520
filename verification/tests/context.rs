use std::cell::Cell;

use ast_traverse::ancestor::{field_discriminant, Ancestor};
use ast_traverse::context::{FinderRet, TraverseCtx};
use oxc_allocator::Allocator;

fn record(node: u64, kind: u8, field: u8) -> Ancestor {
    Ancestor::Field { node, kind, field }
}

#[test]
fn new_context_holds_only_the_sentinel() {
    let allocator = Allocator::default();
    let ctx = TraverseCtx::new(&allocator);
    assert_eq!(ctx.ancestors_depth(), 0);
    assert_eq!(*ctx.parent(), Ancestor::NoParent);
    assert!(ctx.parent().is_no_parent());
    assert!(ctx.stack_is_empty());
}

#[test]
fn ancestor_is_absent_at_the_root() {
    let allocator = Allocator::default();
    let ctx = TraverseCtx::new(&allocator);
    assert_eq!(ctx.ancestor(0), None);
    assert_eq!(ctx.ancestor(1), None);
    assert_eq!(ctx.ancestor(99), None);
    assert_eq!(ctx.ancestor(usize::MAX), None);
}

#[test]
fn push_makes_the_record_the_parent() {
    let allocator = Allocator::default();
    let mut ctx = TraverseCtx::new(&allocator);
    ctx.push_stack(record(10, 1, 0));
    assert_eq!(ctx.ancestors_depth(), 1);
    assert_eq!(*ctx.parent(), record(10, 1, 0));
    assert!(!ctx.stack_is_empty());
    ctx.push_stack(record(11, 2, 3));
    assert_eq!(ctx.ancestors_depth(), 2);
    assert_eq!(*ctx.parent(), record(11, 2, 3));
}

#[test]
fn ancestor_counts_levels_from_the_parent() {
    let allocator = Allocator::default();
    let mut ctx = TraverseCtx::new(&allocator);
    ctx.push_stack(record(10, 1, 0));
    ctx.push_stack(record(11, 2, 3));
    ctx.push_stack(record(12, 3, 1));
    assert_eq!(ctx.ancestor(0), None);
    assert_eq!(ctx.ancestor(1), Some(&record(12, 3, 1)));
    assert_eq!(ctx.ancestor(1), Some(ctx.parent()));
    assert_eq!(ctx.ancestor(2), Some(&record(11, 2, 3)));
    assert_eq!(ctx.ancestor(3), Some(&record(10, 1, 0)));
    assert_eq!(ctx.ancestor(4), None);
    assert_eq!(ctx.ancestor(5), None);
}

#[test]
fn pop_restores_the_trail() {
    let allocator = Allocator::default();
    let mut ctx = TraverseCtx::new(&allocator);
    ctx.push_stack(record(10, 1, 0));
    ctx.push_stack(record(11, 2, 3));
    ctx.pop_stack();
    assert_eq!(ctx.ancestors_depth(), 1);
    assert_eq!(*ctx.parent(), record(10, 1, 0));
    ctx.pop_stack();
    assert_eq!(ctx.ancestors_depth(), 0);
    assert_eq!(*ctx.parent(), Ancestor::NoParent);
    assert!(ctx.stack_is_empty());
}

#[test]
fn retag_rewrites_only_the_field_of_the_top_record() {
    let allocator = Allocator::default();
    let mut ctx = TraverseCtx::new(&allocator);
    ctx.push_stack(record(10, 1, 0));
    ctx.push_stack(record(11, 2, 3));
    ctx.retag_stack(field_discriminant(2, 9));
    assert_eq!(ctx.ancestors_depth(), 2);
    assert_eq!(*ctx.parent(), record(11, 2, 9));
    assert_eq!(ctx.ancestor(2), Some(&record(10, 1, 0)));
}

#[test]
fn retag_equals_pop_then_push() {
    let allocator = Allocator::default();
    let mut retagged = TraverseCtx::new(&allocator);
    retagged.push_stack(record(10, 1, 0));
    retagged.push_stack(record(11, 2, 3));
    retagged.retag_stack(field_discriminant(2, 4));

    let mut repushed = TraverseCtx::new(&allocator);
    repushed.push_stack(record(10, 1, 0));
    repushed.push_stack(record(11, 2, 3));
    repushed.pop_stack();
    repushed.push_stack(record(11, 2, 4));

    assert_eq!(retagged.ancestors_depth(), repushed.ancestors_depth());
    for level in 0..4 {
        assert_eq!(retagged.ancestor(level), repushed.ancestor(level));
    }
    assert_eq!(retagged.parent(), repushed.parent());

    retagged.pop_stack();
    repushed.pop_stack();
    assert_eq!(retagged.ancestors_depth(), 1);
    assert_eq!(retagged.parent(), repushed.parent());
    retagged.pop_stack();
    repushed.pop_stack();
    assert!(retagged.stack_is_empty());
    assert!(repushed.stack_is_empty());
}

#[test]
fn field_discriminant_packs_type_and_field() {
    assert_eq!(field_discriminant(0, 0), 0);
    assert_eq!(field_discriminant(0, 7), 7);
    assert_eq!(field_discriminant(1, 0), 256);
    assert_eq!(field_discriminant(3, 7), 775);
    assert_eq!(field_discriminant(255, 255), 65535);
}

#[test]
fn records_give_their_parts() {
    assert_eq!(Ancestor::no_parent(), Ancestor::NoParent);
    assert_eq!(Ancestor::of_field(5, 3, 7), record(5, 3, 7));
    assert_eq!(Ancestor::NoParent.node(), None);
    assert_eq!(record(5, 3, 7).node(), Some(5));
    assert_eq!(Ancestor::NoParent.discriminant(), None);
    assert_eq!(record(5, 3, 7).discriminant(), Some(775));
    assert!(!record(5, 3, 7).is_no_parent());
}

#[test]
fn find_ancestor_found_stops_at_the_first_match() {
    let allocator = Allocator::default();
    let mut ctx = TraverseCtx::new(&allocator);
    ctx.push_stack(record(10, 1, 0));
    ctx.push_stack(record(11, 2, 0));
    ctx.push_stack(record(12, 2, 0));
    ctx.push_stack(record(13, 3, 0));
    let asked = Cell::new(0usize);
    let found = ctx.find_ancestor(|a| {
        asked.set(asked.get() + 1);
        match a {
            Ancestor::Field { node, kind: 2, .. } => FinderRet::Found(*node),
            _ => FinderRet::Continue,
        }
    });
    assert_eq!(found, Some(12));
    assert_eq!(asked.get(), 2);
}

#[test]
fn find_ancestor_stop_yields_nothing() {
    let allocator = Allocator::default();
    let mut ctx = TraverseCtx::new(&allocator);
    ctx.push_stack(record(10, 1, 0));
    ctx.push_stack(record(11, 2, 0));
    ctx.push_stack(record(12, 3, 0));
    let asked = Cell::new(0usize);
    let found: Option<u64> = ctx.find_ancestor(|a| {
        asked.set(asked.get() + 1);
        match a {
            Ancestor::Field { kind: 2, .. } => FinderRet::Stop,
            Ancestor::Field { node, kind: 1, .. } => FinderRet::Found(*node),
            _ => FinderRet::Continue,
        }
    });
    assert_eq!(found, None);
    assert_eq!(asked.get(), 2);
}

#[test]
fn find_ancestor_all_continue_examines_depth_records() {
    let allocator = Allocator::default();
    let mut ctx = TraverseCtx::new(&allocator);
    for depth in 0..6usize {
        let asked = Cell::new(0usize);
        let sentinel_seen = Cell::new(false);
        let found: Option<u8> = ctx.find_ancestor(|a| {
            asked.set(asked.get() + 1);
            if a.is_no_parent() {
                sentinel_seen.set(true);
            }
            FinderRet::Continue
        });
        assert_eq!(found, None);
        assert_eq!(asked.get(), depth);
        assert_eq!(asked.get(), ctx.ancestors_depth());
        assert!(!sentinel_seen.get());
        ctx.push_stack(record(depth as u64, 1, 0));
    }
}

#[test]
fn find_ancestor_walks_from_the_parent_up() {
    let allocator = Allocator::default();
    let mut ctx = TraverseCtx::new(&allocator);
    ctx.push_stack(record(10, 1, 0));
    ctx.push_stack(record(11, 2, 0));
    ctx.push_stack(record(12, 3, 0));
    let order = std::cell::RefCell::new(Vec::new());
    let found: Option<()> = ctx.find_ancestor(|a| {
        order.borrow_mut().push(a.node());
        FinderRet::Continue
    });
    assert_eq!(found, None);
    assert_eq!(*order.borrow(), vec![Some(12), Some(11), Some(10)]);
}

#[test]
fn allocate_places_the_value_in_the_arena() {
    let allocator = Allocator::default();
    let ctx = TraverseCtx::new(&allocator);
    let handle: oxc_allocator::Box<u32> = ctx.allocate(41 + 1);
    assert_eq!(*handle, 42);
    let mut text = ctx.allocate(String::from("call"));
    text.push_str("ee");
    assert_eq!(text.as_str(), "callee");
    assert_eq!(handle.unbox(), 42);
}
