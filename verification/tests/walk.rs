use ast_traverse::ancestor::Ancestor;
use ast_traverse::context::{FinderRet, TraverseCtx};
use ast_traverse::recorder::{Event, Recorder};
use ast_traverse::replace::ReplaceOnce;
use ast_traverse::traverse::{traverse_mut, walk_node, Traverse};
use ast_traverse::tree::{Child, Node, PLACEHOLDER_KIND};
use oxc_allocator::Allocator;

const PROGRAM: u8 = 1;
const FUNCTION: u8 = 2;
const BLOCK: u8 = 3;
const CALL: u8 = 4;
const IDENTIFIER: u8 = 5;
const LITERAL: u8 = 6;

fn leaf(id: u64, kind: u8) -> Node {
    Node { id, kind, children: vec![] }
}

fn node(id: u64, kind: u8, children: Vec<(u8, Node)>) -> Node {
    Node {
        id,
        kind,
        children: children.into_iter().map(|(field, node)| Child { field, node }).collect(),
    }
}

fn record(node: u64, kind: u8, field: u8) -> Ancestor {
    Ancestor::Field { node, kind, field }
}

struct Spy {
    entered: Vec<(u64, usize)>,
    exited: Vec<(u64, usize)>,
    order: Vec<(bool, u64)>,
    parents: Vec<(u64, Ancestor)>,
}

impl Spy {
    fn new() -> Spy {
        Spy { entered: vec![], exited: vec![], order: vec![], parents: vec![] }
    }
}

impl<'a> Traverse<'a> for Spy {
    fn enter_node(&mut self, node: &mut Node, ctx: &TraverseCtx<'a>) {
        self.entered.push((node.id, ctx.ancestors_depth()));
        self.order.push((false, node.id));
        self.parents.push((node.id, *ctx.parent()));
    }

    fn exit_node(&mut self, node: &mut Node, ctx: &TraverseCtx<'a>) {
        self.exited.push((node.id, ctx.ancestors_depth()));
        self.order.push((true, node.id));
    }
}

/// A program with a function that holds a block in a block around one call.
fn nested_program() -> Node {
    node(
        1,
        PROGRAM,
        vec![(
            0,
            node(
                2,
                FUNCTION,
                vec![(
                    1,
                    node(3, BLOCK, vec![(0, node(4, BLOCK, vec![(0, leaf(5, CALL))]))]),
                )],
            ),
        )],
    )
}

fn bushy_program() -> Node {
    node(
        1,
        PROGRAM,
        vec![
            (0, leaf(2, IDENTIFIER)),
            (0, node(3, CALL, vec![(0, leaf(4, IDENTIFIER)), (1, leaf(5, LITERAL))])),
            (2, node(6, BLOCK, vec![(0, node(7, BLOCK, vec![]))])),
            (3, leaf(8, LITERAL)),
        ],
    )
}

#[test]
fn empty_program_visits_only_the_root() {
    let allocator = Allocator::default();
    let mut program = leaf(1, PROGRAM);
    let mut spy = Spy::new();
    traverse_mut(&mut spy, &mut program, &allocator);
    assert_eq!(spy.order, vec![(false, 1), (true, 1)]);
    assert_eq!(spy.entered, vec![(1, 0)]);
    assert_eq!(spy.exited, vec![(1, 0)]);
    assert_eq!(spy.parents, vec![(1, Ancestor::NoParent)]);
    assert_eq!(program, leaf(1, PROGRAM));
}

#[test]
fn empty_program_leaves_the_trail_as_it_was() {
    let allocator = Allocator::default();
    let mut ctx = TraverseCtx::new(&allocator);
    let mut program = leaf(1, PROGRAM);
    let mut recorder = Recorder::new();
    walk_node(&mut recorder, &mut program, &mut ctx);
    assert!(ctx.stack_is_empty());
    assert_eq!(ctx.ancestors_depth(), 0);
    assert_eq!(recorder.events.len(), 2);
}

#[test]
fn callbacks_come_in_depth_first_order() {
    let allocator = Allocator::default();
    let mut program = bushy_program();
    let mut spy = Spy::new();
    traverse_mut(&mut spy, &mut program, &allocator);
    let enters: Vec<u64> = spy.entered.iter().map(|e| e.0).collect();
    let exits: Vec<u64> = spy.exited.iter().map(|e| e.0).collect();
    assert_eq!(enters, vec![1, 2, 3, 4, 5, 6, 7, 8]);
    assert_eq!(exits, vec![2, 4, 5, 3, 7, 6, 8, 1]);
    assert_eq!(
        spy.order,
        vec![
            (false, 1),
            (false, 2),
            (true, 2),
            (false, 3),
            (false, 4),
            (true, 4),
            (false, 5),
            (true, 5),
            (true, 3),
            (false, 6),
            (false, 7),
            (true, 7),
            (true, 6),
            (false, 8),
            (true, 8),
            (true, 1),
        ]
    );
}

#[test]
fn depth_is_the_number_of_edges_from_the_root() {
    let allocator = Allocator::default();
    let mut program = bushy_program();
    let mut spy = Spy::new();
    traverse_mut(&mut spy, &mut program, &allocator);
    assert_eq!(
        spy.entered,
        vec![(1, 0), (2, 1), (3, 1), (4, 2), (5, 2), (6, 1), (7, 2), (8, 1)]
    );
    assert_eq!(
        spy.exited,
        vec![(2, 1), (4, 2), (5, 2), (3, 1), (7, 2), (6, 1), (8, 1), (1, 0)]
    );
}

#[test]
fn parent_names_the_node_and_the_field_above() {
    let allocator = Allocator::default();
    let mut program = bushy_program();
    let mut spy = Spy::new();
    traverse_mut(&mut spy, &mut program, &allocator);
    assert_eq!(
        spy.parents,
        vec![
            (1, Ancestor::NoParent),
            (2, record(1, PROGRAM, 0)),
            (3, record(1, PROGRAM, 0)),
            (4, record(3, CALL, 0)),
            (5, record(3, CALL, 1)),
            (6, record(1, PROGRAM, 2)),
            (7, record(6, BLOCK, 0)),
            (8, record(1, PROGRAM, 3)),
        ]
    );
}

#[test]
fn trail_is_restored_after_a_walk_under_a_longer_trail() {
    let allocator = Allocator::default();
    let mut ctx = TraverseCtx::new(&allocator);
    ctx.push_stack(record(100, PROGRAM, 0));
    ctx.push_stack(record(101, BLOCK, 2));
    let mut subtree = bushy_program();
    let mut spy = Spy::new();
    walk_node(&mut spy, &mut subtree, &mut ctx);
    assert_eq!(ctx.ancestors_depth(), 2);
    assert_eq!(*ctx.parent(), record(101, BLOCK, 2));
    assert_eq!(ctx.ancestor(2), Some(&record(100, PROGRAM, 0)));
    assert_eq!(spy.entered[0], (1, 2));
    assert_eq!(spy.entered[3], (4, 4));
    ctx.pop_stack();
    ctx.pop_stack();
    assert!(ctx.stack_is_empty());
}

#[test]
fn recorder_records_every_callback() {
    let allocator = Allocator::default();
    let mut program = node(1, PROGRAM, vec![(4, node(2, BLOCK, vec![(7, leaf(3, CALL))]))]);
    let mut recorder = Recorder::new();
    traverse_mut(&mut recorder, &mut program, &allocator);
    let event = |exit: bool, node: u64, kind: u8, depth: usize, parent: Ancestor| Event {
        exit,
        node,
        kind,
        depth,
        parent,
    };
    assert_eq!(
        recorder.events,
        vec![
            event(false, 1, PROGRAM, 0, Ancestor::NoParent),
            event(false, 2, BLOCK, 1, record(1, PROGRAM, 4)),
            event(false, 3, CALL, 2, record(2, BLOCK, 7)),
            event(true, 3, CALL, 2, record(2, BLOCK, 7)),
            event(true, 2, BLOCK, 1, record(1, PROGRAM, 4)),
            event(true, 1, PROGRAM, 0, Ancestor::NoParent),
        ]
    );
    assert_eq!(program, node(1, PROGRAM, vec![(4, node(2, BLOCK, vec![(7, leaf(3, CALL))]))]));
}

struct Probe {
    at: u64,
    seen: Vec<(usize, Option<Ancestor>)>,
    depth: Option<usize>,
    enclosing_function: Option<u64>,
}

impl<'a> Traverse<'a> for Probe {
    fn enter_node(&mut self, node: &mut Node, ctx: &TraverseCtx<'a>) {
        if node.id == self.at {
            for level in [0usize, 1, 2, 3, 4, 5, 99] {
                self.seen.push((level, ctx.ancestor(level).copied()));
            }
            self.depth = Some(ctx.ancestors_depth());
            self.enclosing_function = ctx.find_ancestor(|a| match a {
                Ancestor::Field { node, kind: FUNCTION, .. } => FinderRet::Found(*node),
                _ => FinderRet::Continue,
            });
        }
    }

    fn exit_node(&mut self, _node: &mut Node, _ctx: &TraverseCtx<'a>) {}
}

#[test]
fn call_in_nested_blocks_sees_its_ancestors() {
    let allocator = Allocator::default();
    let mut program = nested_program();
    let mut probe = Probe { at: 5, seen: vec![], depth: None, enclosing_function: None };
    traverse_mut(&mut probe, &mut program, &allocator);
    assert_eq!(probe.depth, Some(4));
    assert_eq!(
        probe.seen,
        vec![
            (0, None),
            (1, Some(record(4, BLOCK, 0))),
            (2, Some(record(3, BLOCK, 0))),
            (3, Some(record(2, FUNCTION, 1))),
            (4, Some(record(1, PROGRAM, 0))),
            (5, None),
            (99, None),
        ]
    );
    assert_eq!(probe.enclosing_function, Some(2));
}

#[test]
fn replacement_takes_the_place_of_the_node() {
    let allocator = Allocator::default();
    let replaced = node(5, CALL, vec![(0, leaf(50, IDENTIFIER)), (1, leaf(51, LITERAL))]);
    let mut program = node(
        1,
        PROGRAM,
        vec![(0, leaf(2, LITERAL)), (0, node(3, BLOCK, vec![(2, replaced)])), (1, leaf(4, LITERAL))],
    );
    let replacement = node(9, CALL, vec![(0, leaf(90, IDENTIFIER))]);
    let mut replacer = ReplaceOnce::new(5, replacement);
    assert!(!replacer.is_done());
    traverse_mut(&mut replacer, &mut program, &allocator);
    assert!(replacer.is_done());
    assert_eq!(
        program,
        node(
            1,
            PROGRAM,
            vec![
                (0, leaf(2, LITERAL)),
                (0, node(3, BLOCK, vec![(2, node(9, CALL, vec![(0, leaf(90, IDENTIFIER))]))])),
                (1, leaf(4, LITERAL)),
            ],
        )
    );

    let mut recorder = Recorder::new();
    traverse_mut(&mut recorder, &mut program, &allocator);
    let entered: Vec<u64> = recorder.events.iter().filter(|e| !e.exit).map(|e| e.node).collect();
    assert_eq!(entered, vec![1, 2, 3, 9, 90, 4]);
    assert!(recorder.events.iter().all(|e| e.node != 5 && e.node != 50 && e.node != 51));
}

#[test]
fn replacer_without_a_match_changes_nothing() {
    let allocator = Allocator::default();
    let mut program = bushy_program();
    let mut replacer = ReplaceOnce::new(77, leaf(9, CALL));
    traverse_mut(&mut replacer, &mut program, &allocator);
    assert!(!replacer.is_done());
    assert_eq!(replacer.replacement, Some(leaf(9, CALL)));
    assert_eq!(program, bushy_program());
}

#[test]
fn replacing_the_root_replaces_the_whole_tree() {
    let allocator = Allocator::default();
    let mut program = bushy_program();
    let mut replacer = ReplaceOnce::new(1, node(9, PROGRAM, vec![(0, leaf(10, LITERAL))]));
    traverse_mut(&mut replacer, &mut program, &allocator);
    assert_eq!(program, node(9, PROGRAM, vec![(0, leaf(10, LITERAL))]));
}

struct Wrapper {
    order: Vec<(bool, u64)>,
}

impl<'a> Traverse<'a> for Wrapper {
    fn enter_node(&mut self, node: &mut Node, ctx: &TraverseCtx<'a>) {
        self.order.push((false, node.id));
        if node.kind == CALL {
            let handle = ctx.allocate(node.id);
            let inner = node.take();
            assert!(node.is_placeholder());
            let mut block = Node::new(*handle + 100, BLOCK);
            block.push_child(0, leaf(*handle + 200, LITERAL));
            block.push_child(1, Node { id: inner.id, kind: IDENTIFIER, children: inner.children });
            *node = block;
        }
    }

    fn exit_node(&mut self, node: &mut Node, _ctx: &TraverseCtx<'a>) {
        self.order.push((true, node.id));
    }
}

#[test]
fn walk_continues_into_what_the_enter_callback_put_in() {
    let allocator = Allocator::default();
    let mut program = node(1, PROGRAM, vec![(0, node(2, CALL, vec![(0, leaf(3, LITERAL))]))]);
    let mut wrapper = Wrapper { order: vec![] };
    traverse_mut(&mut wrapper, &mut program, &allocator);
    assert_eq!(
        wrapper.order,
        vec![
            (false, 1),
            (false, 2),
            (false, 202),
            (true, 202),
            (false, 2),
            (false, 3),
            (true, 3),
            (true, 2),
            (true, 102),
            (true, 1),
        ]
    );
    assert_eq!(
        program,
        node(
            1,
            PROGRAM,
            vec![(
                0,
                node(
                    102,
                    BLOCK,
                    vec![
                        (0, leaf(202, LITERAL)),
                        (1, node(2, IDENTIFIER, vec![(0, leaf(3, LITERAL))])),
                    ],
                ),
            )],
        )
    );
}

struct ExitRenamer;

impl<'a> Traverse<'a> for ExitRenamer {
    fn enter_node(&mut self, _node: &mut Node, _ctx: &TraverseCtx<'a>) {}

    fn exit_node(&mut self, node: &mut Node, ctx: &TraverseCtx<'a>) {
        node.id += 1000 * (ctx.ancestors_depth() as u64 + 1);
    }
}

#[test]
fn exit_callback_changes_are_kept() {
    let allocator = Allocator::default();
    let mut program = node(1, PROGRAM, vec![(0, node(2, BLOCK, vec![(0, leaf(3, CALL))]))]);
    traverse_mut(&mut ExitRenamer, &mut program, &allocator);
    assert_eq!(
        program,
        node(1001, PROGRAM, vec![(0, node(2002, BLOCK, vec![(0, leaf(3003, CALL))]))])
    );
}

#[test]
fn node_builders_make_the_expected_nodes() {
    let mut parent = Node::new(7, BLOCK);
    assert_eq!(parent, leaf(7, BLOCK));
    assert!(!parent.is_placeholder());
    parent.push_child(3, Node::new(8, CALL));
    parent.push_child(4, Node::new(9, LITERAL));
    assert_eq!(parent, node(7, BLOCK, vec![(3, leaf(8, CALL)), (4, leaf(9, LITERAL))]));

    let placeholder = Node::placeholder();
    assert_eq!(placeholder, leaf(0, PLACEHOLDER_KIND));
    assert_eq!(PLACEHOLDER_KIND, 0);
    assert!(placeholder.is_placeholder());

    let taken = parent.take();
    assert_eq!(taken, node(7, BLOCK, vec![(3, leaf(8, CALL)), (4, leaf(9, LITERAL))]));
    assert_eq!(parent, Node::placeholder());
}
