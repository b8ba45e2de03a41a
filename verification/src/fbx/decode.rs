//! Building the tree from the event stream.
//!
//! The builder is a recursive descent over the events: a `StartNode` is
//! classified and converted, the events up to its `EndNode` (or to the end of
//! the stream) become its children, and the finished node joins its parent.
//! A node that the library does not interpret leaves no trace unless
//! unrecognised nodes are kept; either way its events are read, so a
//! malformed record inside it still fails the load.

use crate::error::LoadError;
use crate::fbx::classify::classified;
use crate::fbx::classify::is_recognised;
use crate::fbx::classify::convert_node;
use crate::fbx::event::decode_events;
use crate::fbx::event::fbx_events;
use crate::fbx::event::EventQueue;
use crate::fbx::event::EventView;
use crate::fbx::event::Event;
use crate::fbx::node::forest_preorder;
use crate::fbx::node::forest_view;
use crate::fbx::node::forest_without_others;
use crate::fbx::node::lemma_forest_without_others_concat;
use crate::fbx::node::lemma_forest_preorder_concat;
use crate::fbx::node::lemma_forest_preorder_single;
use crate::fbx::node::FbxNode;
use crate::fbx::node::FbxNodeView;
use crate::fbx::node::NodeType;
use crate::fbx::node::NodeTypeView;
use fbx_direct::common::OwnedProperty;
use vstd::prelude::*;

verus! {

/// What reading one level of the tree from the head of an event sequence
/// comes to.
pub struct Reading {
    /// The nodes of the level, in stream order. Empty after a failure.
    pub nodes: Seq<FbxNodeView>,
    /// How many events were taken, the closing `EndNode` or the failing
    /// `StartNode` included.
    pub used: nat,
    /// The failure that ended the reading, if one did.
    pub failure: Option<LoadError>,
}

/// The events that follow the first `used` ones; none at all once `used`
/// reaches past the end.
pub open spec fn rest(events: Seq<EventView>, used: nat) -> Seq<EventView> {
    if used <= events.len() {
        events.skip(used as int)
    } else {
        Seq::empty()
    }
}

/// Whether a finished node joins its parent.
pub open spec fn is_kept(node_type: NodeTypeView, keep_others: bool) -> bool {
    keep_others || !(node_type is Other)
}

/// A node with further children appended behind those it has.
pub open spec fn with_children(node: FbxNodeView, more: Seq<FbxNodeView>) -> FbxNodeView {
    FbxNodeView {
        node_type: node.node_type,
        properties: node.properties,
        children: node.children + more,
    }
}

/// Reads one level of the tree: the nodes from the head of `events` up to
/// the `EndNode` that closes their parent, or up to the end of the stream,
/// which closes every node still open.
pub open spec fn read_forest(events: Seq<EventView>, keep_others: bool) -> Reading
    decreases events.len(),
{
    if events.len() == 0 {
        Reading { nodes: Seq::empty(), used: 0, failure: None }
    } else {
        match events[0] {
            EventView::EndNode => Reading { nodes: Seq::empty(), used: 1, failure: None },
            EventView::StartNode { name, properties } => match classified(name, properties) {
                Err(e) => Reading { nodes: Seq::empty(), used: 1, failure: Some(e) },
                Ok(head) => {
                    let inner = read_forest(events.skip(1), keep_others);
                    if inner.failure is Some {
                        Reading {
                            nodes: Seq::empty(),
                            used: 1 + inner.used,
                            failure: inner.failure,
                        }
                    } else {
                        let later = read_forest(rest(events, 1 + inner.used), keep_others);
                        let used = 1 + inner.used + later.used;
                        if later.failure is Some {
                            Reading { nodes: Seq::empty(), used, failure: later.failure }
                        } else if is_kept(head.node_type, keep_others) {
                            Reading {
                                nodes: seq![with_children(head, inner.nodes)] + later.nodes,
                                used,
                                failure: None,
                            }
                        } else {
                            Reading { nodes: later.nodes, used, failure: None }
                        }
                    }
                },
            },
            _ => {
                let later = read_forest(events.skip(1), keep_others);
                Reading { nodes: later.nodes, used: 1 + later.used, failure: later.failure }
            },
        }
    }
}

/// An empty root.
pub open spec fn empty_root() -> FbxNodeView {
    FbxNodeView { node_type: NodeTypeView::Root, properties: Seq::empty(), children: Seq::empty() }
}

/// The tree that a sequence of events builds under `root`.
pub open spec fn tree_from_events(
    root: FbxNodeView,
    events: Seq<EventView>,
    keep_others: bool,
) -> Result<FbxNodeView, LoadError> {
    let reading = read_forest(events, keep_others);
    match reading.failure {
        Some(e) => Err(e),
        None => Ok(with_children(root, reading.nodes)),
    }
}

/// The tree that a byte stream decodes to. A stream whose first byte is a
/// line feed is malformed, as is one that the event decoder reports an error
/// for.
pub open spec fn tree_from_bytes(bytes: Seq<u8>, keep_others: bool) -> Result<
    FbxNodeView,
    LoadError,
> {
    if bytes.len() > 0 && bytes[0] == 0x0a {
        Err(LoadError::MalformedStream)
    } else {
        match fbx_events(bytes) {
            None => Err(LoadError::MalformedStream),
            Some(events) => tree_from_events(empty_root(), events, keep_others),
        }
    }
}

/// Taking `a` events and then `b` more is taking `a + b`.
pub proof fn lemma_rest_of_rest(events: Seq<EventView>, a: nat, b: nat)
    ensures
        rest(rest(events, a), b) == rest(events, a + b),
{
    if a + b <= events.len() {
        assert(events.skip(a as int).skip(b as int) =~= events.skip((a + b) as int));
    } else if a <= events.len() {
        assert(rest(rest(events, a), b) =~= Seq::<EventView>::empty());
    } else {
        assert(rest(rest(events, a), b) =~= Seq::<EventView>::empty());
    }
}

/// A reading never takes more events than there are.
pub proof fn lemma_reading_stays_in_stream(events: Seq<EventView>, keep_others: bool)
    ensures
        read_forest(events, keep_others).used <= events.len(),
        events.len() > 0 ==> read_forest(events, keep_others).used > 0,
    decreases events.len(),
{
    if events.len() > 0 {
        match events[0] {
            EventView::EndNode => {},
            EventView::StartNode { name, properties } => {
                if classified(name, properties) is Ok {
                    let inner = read_forest(events.skip(1), keep_others);
                    lemma_reading_stays_in_stream(events.skip(1), keep_others);
                    if inner.failure is None {
                        lemma_reading_stays_in_stream(rest(events, 1 + inner.used), keep_others);
                    }
                }
            },
            _ => {
                lemma_reading_stays_in_stream(events.skip(1), keep_others);
            },
        }
    }
}

/// A freshly classified node has no children yet.
pub proof fn lemma_classified_is_leaf(name: Seq<char>, properties: Seq<OwnedProperty>)
    requires
        classified(name, properties) is Ok,
    ensures
        classified(name, properties)->Ok_0.children == Seq::<FbxNodeView>::empty(),
{
}

/// A node of a name outside the fixed set is classified as `Other`, with its
/// name and its raw properties as they came.
pub proof fn lemma_unrecognised_is_other(name: Seq<char>, properties: Seq<OwnedProperty>)
    requires
        !is_recognised(name),
    ensures
        classified(name, properties) == Ok::<FbxNodeView, LoadError>(
            FbxNodeView {
                node_type: NodeTypeView::Other(name),
                properties,
                children: Seq::empty(),
            },
        ),
{
}

/// With unrecognised nodes left out, a reading holds no `Other` node at any
/// depth.
pub proof fn lemma_reading_leaves_out_others(events: Seq<EventView>)
    ensures
        forall|i: int|
            0 <= i < forest_preorder(read_forest(events, false).nodes).len() ==> !((
            #[trigger] forest_preorder(read_forest(events, false).nodes)[i]).node_type is Other),
    decreases events.len(),
{
    let reading = read_forest(events, false);
    if events.len() > 0 {
        match events[0] {
            EventView::EndNode => {},
            EventView::StartNode { name, properties } => {
                if let Ok(head) = classified(name, properties) {
                    let inner = read_forest(events.skip(1), false);
                    lemma_reading_leaves_out_others(events.skip(1));
                    if inner.failure is None {
                        let later = read_forest(rest(events, 1 + inner.used), false);
                        lemma_reading_leaves_out_others(rest(events, 1 + inner.used));
                        if later.failure is None && is_kept(head.node_type, false) {
                            let node = with_children(head, inner.nodes);
                            lemma_classified_is_leaf(name, properties);
                            assert(head.children + inner.nodes =~= inner.nodes);
                            lemma_forest_preorder_concat(seq![node], later.nodes);
                            lemma_forest_preorder_single(node);
                            assert(forest_preorder(reading.nodes) == (seq![node] + forest_preorder(
                                inner.nodes,
                            )) + forest_preorder(later.nodes));
                        }
                    }
                }
            },
            _ => {
                lemma_reading_leaves_out_others(events.skip(1));
            },
        }
    }
}

/// A tree read with unrecognised nodes left out holds no `Other` node,
/// provided the root it was read under holds none.
pub proof fn lemma_tree_leaves_out_others(root: FbxNodeView, events: Seq<EventView>)
    requires
        root.free_of_others(),
        tree_from_events(root, events, false) is Ok,
    ensures
        tree_from_events(root, events, false)->Ok_0.free_of_others(),
{
    let reading = read_forest(events, false);
    let tree = with_children(root, reading.nodes);
    lemma_reading_leaves_out_others(events);
    lemma_forest_preorder_concat(root.children, reading.nodes);
    let above = root.preorder();
    let below = forest_preorder(reading.nodes);
    assert(tree.preorder() =~= seq![tree] + forest_preorder(root.children) + below);
    assert forall|i: int| 0 <= i < tree.preorder().len() implies !((
    #[trigger] tree.preorder()[i]).node_type is Other) by {
        if i == 0 {
            assert(above[0] == root);
        } else if i < above.len() {
            assert(tree.preorder()[i] == above[i]);
        } else {
            assert(tree.preorder()[i] == below[i - above.len()]);
        }
    }
}

/// A tree decoded from bytes with unrecognised nodes left out holds no
/// `Other` node.
pub proof fn lemma_decoded_tree_leaves_out_others(bytes: Seq<u8>)
    requires
        tree_from_bytes(bytes, false) is Ok,
    ensures
        tree_from_bytes(bytes, false)->Ok_0.free_of_others(),
{
    assert(empty_root().preorder() =~= seq![empty_root()]);
    lemma_tree_leaves_out_others(empty_root(), fbx_events(bytes)->0);
}

/// Reading with unrecognised nodes left out takes the same events and
/// fails alike as reading with them kept, and gives the trees that taking
/// the `Other` nodes out of the kept ones gives.
pub proof fn lemma_discarding_is_pruning(events: Seq<EventView>)
    ensures
        read_forest(events, false).used == read_forest(events, true).used,
        read_forest(events, false).failure == read_forest(events, true).failure,
        read_forest(events, false).nodes == forest_without_others(read_forest(events, true).nodes),
    decreases events.len(),
{
    let none = Seq::<FbxNodeView>::empty();
    assert(forest_without_others(none) =~= none);
    if events.len() > 0 {
        match events[0] {
            EventView::EndNode => {},
            EventView::StartNode { name, properties } => {
                if let Ok(head) = classified(name, properties) {
                    let inner = read_forest(events.skip(1), true);
                    lemma_discarding_is_pruning(events.skip(1));
                    if inner.failure is None {
                        let after = rest(events, 1 + inner.used);
                        let later = read_forest(after, true);
                        lemma_discarding_is_pruning(after);
                        if later.failure is None {
                            let kept = with_children(head, inner.nodes);
                            lemma_classified_is_leaf(name, properties);
                            assert(head.children + inner.nodes =~= inner.nodes);
                            assert(head.children + forest_without_others(inner.nodes)
                                =~= forest_without_others(inner.nodes));
                            lemma_forest_without_others_concat(seq![kept], later.nodes);
                            assert(seq![kept].drop_last() =~= none);
                            assert(seq![kept].last() == kept);
                            if head.node_type is Other {
                                assert(forest_without_others(seq![kept]) =~= none);
                                assert(none + forest_without_others(later.nodes)
                                    =~= forest_without_others(later.nodes));
                            } else {
                                assert(forest_without_others(seq![kept]) =~= seq![
                                    kept.without_others(),
                                ]);
                            }
                        }
                    }
                }
            },
            _ => {
                lemma_discarding_is_pruning(events.skip(1));
            },
        }
    }
}

/// The type and the raw properties of each node, children left aside.
pub open spec fn headers(nodes: Seq<FbxNodeView>) -> Seq<(NodeTypeView, Seq<OwnedProperty>)> {
    Seq::new(nodes.len(), |i: int| (nodes[i].node_type, nodes[i].properties))
}

/// What the `StartNode` events among `events` are classified as, in stream
/// order: the type and the raw properties of the node that each one opens.
pub open spec fn opened(events: Seq<EventView>) -> Seq<(NodeTypeView, Seq<OwnedProperty>)>
    decreases events.len(),
{
    if events.len() == 0 {
        Seq::empty()
    } else {
        let earlier = opened(events.drop_last());
        match events.last() {
            EventView::StartNode { name, properties } => match classified(name, properties) {
                Ok(node) => earlier.push((node.node_type, node.properties)),
                Err(_) => earlier,
            },
            _ => earlier,
        }
    }
}

/// The nodes that two stretches of events open are those of the first
/// stretch followed by those of the second.
pub proof fn lemma_opened_concat(a: Seq<EventView>, b: Seq<EventView>)
    ensures
        opened(a + b) == opened(a) + opened(b),
    decreases b.len(),
{
    if b.len() == 0 {
        assert(a + b =~= a);
        assert(opened(a) + opened(b) =~= opened(a));
    } else {
        lemma_opened_concat(a, b.drop_last());
        assert((a + b).drop_last() =~= a + b.drop_last());
        assert((a + b).last() == b.last());
        assert(opened(a + b) =~= opened(a) + opened(b));
    }
}

/// With unrecognised nodes kept, the nodes of a reading, taken in
/// pre-order, are the nodes that the events it took open, one for one and in
/// stream order, each with the type and the raw properties that its event
/// was classified as.
pub proof fn lemma_reading_keeps_every_node(events: Seq<EventView>)
    requires
        read_forest(events, true).failure is None,
    ensures
        read_forest(events, true).used <= events.len(),
        headers(forest_preorder(read_forest(events, true).nodes)) == opened(
            events.take(read_forest(events, true).used as int),
        ),
    decreases events.len(),
{
    let reading = read_forest(events, true);
    lemma_reading_stays_in_stream(events, true);
    let taken = events.take(reading.used as int);
    if events.len() == 0 {
        assert(headers(forest_preorder(reading.nodes)) =~= opened(taken));
    } else {
        let first = seq![events[0]];
        assert(first.drop_last() =~= Seq::<EventView>::empty());
        assert(first.last() == events[0]);
        assert(opened(Seq::<EventView>::empty()) =~= Seq::empty());
        match events[0] {
            EventView::EndNode => {
                assert(taken =~= first);
                assert(headers(forest_preorder(reading.nodes)) =~= opened(taken));
            },
            EventView::StartNode { name, properties } => {
                let head = classified(name, properties)->Ok_0;
                let inner = read_forest(events.skip(1), true);
                let after = rest(events, 1 + inner.used);
                let later = read_forest(after, true);
                lemma_reading_stays_in_stream(events.skip(1), true);
                lemma_reading_stays_in_stream(after, true);
                lemma_reading_keeps_every_node(events.skip(1));
                lemma_reading_keeps_every_node(after);
                let node = with_children(head, inner.nodes);
                lemma_classified_is_leaf(name, properties);
                assert(head.children + inner.nodes =~= inner.nodes);
                lemma_forest_preorder_concat(seq![node], later.nodes);
                lemma_forest_preorder_single(node);
                let below = forest_preorder(inner.nodes);
                let beside = forest_preorder(later.nodes);
                assert(forest_preorder(reading.nodes) == (seq![node] + below) + beside);
                let middle = events.skip(1).take(inner.used as int);
                let last = after.take(later.used as int);
                assert(taken =~= (first + middle) + last);
                lemma_opened_concat(first, middle);
                lemma_opened_concat(first + middle, last);
                assert(opened(first) =~= seq![(head.node_type, head.properties)]);
                assert(headers((seq![node] + below) + beside) =~= (seq![
                    (head.node_type, head.properties),
                ] + headers(below)) + headers(beside));
            },
            _ => {
                let later = read_forest(events.skip(1), true);
                lemma_reading_stays_in_stream(events.skip(1), true);
                lemma_reading_keeps_every_node(events.skip(1));
                let last = events.skip(1).take(later.used as int);
                assert(taken =~= first + last);
                lemma_opened_concat(first, last);
                assert(opened(first) =~= Seq::empty());
                assert(opened(first) + opened(last) =~= opened(last));
            },
        }
    }
}

/// Every `StartNode` event among `events` that can be classified has its
/// node among those that `events` open.
pub proof fn lemma_opened_holds_each(events: Seq<EventView>, k: int)
    requires
        0 <= k < events.len(),
        events[k] is StartNode,
        classified(events[k]->name, events[k]->properties) is Ok,
    ensures
        exists|i: int|
            #![trigger opened(events)[i]]
            0 <= i < opened(events).len() && opened(events)[i] == (
                classified(events[k]->name, events[k]->properties)->Ok_0.node_type,
                classified(events[k]->name, events[k]->properties)->Ok_0.properties,
            ),
    decreases events.len(),
{
    let node = classified(events[k]->name, events[k]->properties)->Ok_0;
    if k == events.len() - 1 {
        let i = opened(events).len() - 1;
        assert(opened(events)[i] == (node.node_type, node.properties));
    } else {
        lemma_opened_holds_each(events.drop_last(), k);
        let i = choose|i: int|
            #![trigger opened(events.drop_last())[i]]
            0 <= i < opened(events.drop_last()).len() && opened(events.drop_last())[i] == (
                node.node_type,
                node.properties,
            );
        assert(opened(events)[i] == opened(events.drop_last())[i]);
    }
}

/// With unrecognised nodes kept, a node of a name outside the fixed set
/// that the reading took is in the result, under its name and with its raw
/// properties as they came.
pub proof fn lemma_reading_keeps_unrecognised(events: Seq<EventView>, k: int)
    requires
        read_forest(events, true).failure is None,
        0 <= k < read_forest(events, true).used,
        k < events.len(),
        events[k] is StartNode,
        !is_recognised(events[k]->name),
    ensures
        exists|i: int|
            #![trigger forest_preorder(read_forest(events, true).nodes)[i]]
            0 <= i < forest_preorder(read_forest(events, true).nodes).len() && forest_preorder(
                read_forest(events, true).nodes,
            )[i].node_type == NodeTypeView::Other(events[k]->name) && forest_preorder(
                read_forest(events, true).nodes,
            )[i].properties == events[k]->properties,
{
    let reading = read_forest(events, true);
    let nodes = forest_preorder(reading.nodes);
    let taken = events.take(reading.used as int);
    lemma_reading_keeps_every_node(events);
    lemma_unrecognised_is_other(events[k]->name, events[k]->properties);
    assert(taken[k] == events[k]);
    lemma_opened_holds_each(taken, k);
    let i = choose|i: int|
        #![trigger opened(taken)[i]]
        0 <= i < opened(taken).len() && opened(taken)[i] == (
            NodeTypeView::Other(events[k]->name),
            events[k]->properties,
        );
    assert(headers(nodes)[i] == (nodes[i].node_type, nodes[i].properties));
}

/// Reads the children of `root` from the cursor, up to the `EndNode` that
/// closes `root` or to the end of the stream, and returns `root` with them
/// appended. The first node that cannot be converted ends the load.
pub fn read_node(root: FbxNode, events: &mut EventQueue, keep_others: bool) -> (r: Result<
    FbxNode,
    LoadError,
>)
    ensures
        final(events)@ == rest(old(events)@, read_forest(old(events)@, keep_others).used),
        match tree_from_events(root@, old(events)@, keep_others) {
            Ok(tree) => r matches Ok(node) && node@ == tree,
            Err(e) => r matches Err(failure) && failure == e,
        },
    decreases old(events)@.len(),
{
    let mut parent = root;
    let ghost start = events@;
    let ghost before = root@;
    let ghost total = read_forest(start, keep_others);
    let ghost mut taken: nat = 0;
    let ghost mut added: Seq<FbxNodeView> = Seq::empty();
    proof {
        assert(rest(start, 0) =~= start);
        assert(before.children + added =~= before.children);
    }
    loop
        invariant
            start == old(events)@,
            taken <= start.len(),
            events@ == rest(start, taken),
            total == read_forest(start, keep_others),
            total.used == taken + read_forest(events@, keep_others).used,
            total.failure == read_forest(events@, keep_others).failure,
            total.failure is None ==> total.nodes == added + read_forest(
                events@,
                keep_others,
            ).nodes,
            before == root@,
            parent@ == with_children(before, added),
        decreases events@.len(),
    {
        let ghost here = events@;
        let ghost now = read_forest(here, keep_others);
        match events.next() {
            None => {
                proof {
                    assert(added + now.nodes =~= added);
                }
                return Ok(parent);
            },
            Some(Event::EndNode) => {
                proof {
                    lemma_rest_of_rest(start, taken, 1);
                    assert(added + now.nodes =~= added);
                }
                return Ok(parent);
            },
            Some(Event::StartNode { name, properties }) => {
                proof {
                    lemma_rest_of_rest(start, taken, 1);
                }
                let converted = match convert_node(name, properties) {
                    Ok(node) => node,
                    Err(e) => {
                        return Err(e);
                    },
                };
                let keep = match &converted.node_type {
                    NodeType::Other(_) => keep_others,
                    _ => true,
                };
                let ghost head = converted@;
                let ghost inner = read_forest(here.skip(1), keep_others);
                let node = match read_node(converted, events, keep_others) {
                    Ok(node) => node,
                    Err(e) => {
                        proof {
                            lemma_rest_of_rest(start, taken + 1, inner.used);
                        }
                        return Err(e);
                    },
                };
                proof {
                    lemma_rest_of_rest(start, taken + 1, inner.used);
                    lemma_rest_of_rest(here, 1, inner.used);
                    lemma_reading_stays_in_stream(here.skip(1), keep_others);
                    let later = read_forest(events@, keep_others);
                    taken = taken + 1 + inner.used;
                    if keep {
                        assert(added + (seq![node@] + later.nodes) =~= added.push(node@)
                            + later.nodes);
                        added = added.push(node@);
                    }
                }
                if keep {
                    let ghost siblings = parent.children@;
                    let ghost newcomer = node@;
                    parent.children.push(node);
                    proof {
                        assert(forest_view(siblings.push(node)) =~= forest_view(siblings).push(
                            newcomer,
                        ));
                        assert(parent@.children =~= before.children + added);
                    }
                }
            },
            Some(_) => {
                proof {
                    lemma_rest_of_rest(start, taken, 1);
                    taken = taken + 1;
                }
            },
        }
    }
}

/// Decodes a byte stream into its tree, leaving out every node that the
/// library does not interpret.
///
/// The contract speaks of the calls that return. The event decoder
/// underneath reserves memory for as many properties, array elements and
/// bytes of text as a record of the stream announces, before it has read
/// them: on a stream that announces more than the machine can reserve, the
/// reservation panics or aborts the process, and the call does not return.
/// A stream from a source that is not trusted should be decoded where that
/// can be borne.
pub fn read(bytes: &[u8]) -> (r: Result<FbxNode, LoadError>)
    ensures
        match tree_from_bytes(bytes@, false) {
            Ok(tree) => r matches Ok(node) && node@ == tree,
            Err(e) => r matches Err(failure) && failure == e,
        },
        r matches Ok(node) ==> node@.free_of_others(),
{
    proof {
        if tree_from_bytes(bytes@, false) is Ok {
            lemma_decoded_tree_leaves_out_others(bytes@);
        }
    }
    read_tree(bytes, false)
}

/// Decodes a byte stream into its tree. With `keep_others`, the nodes that
/// the library does not interpret stay in the tree, each with its name and
/// raw properties.
///
/// The contract speaks of the calls that return. The event decoder
/// underneath reserves memory for as many properties, array elements and
/// bytes of text as a record of the stream announces, before it has read
/// them: on a stream that announces more than the machine can reserve, the
/// reservation panics or aborts the process, and the call does not return.
/// A stream from a source that is not trusted should be decoded where that
/// can be borne.
pub fn read_tree(bytes: &[u8], keep_others: bool) -> (r: Result<FbxNode, LoadError>)
    ensures
        match tree_from_bytes(bytes@, keep_others) {
            Ok(tree) => r matches Ok(node) && node@ == tree,
            Err(e) => r matches Err(failure) && failure == e,
        },
{
    if bytes.len() > 0 && bytes[0] == 0x0a {
        return Err(LoadError::MalformedStream);
    }
    match decode_events(bytes) {
        Err(_) => Err(LoadError::MalformedStream),
        Ok(events) => {
            let mut queue = EventQueue::new(events);
            let root = FbxNode::leaf(NodeType::Root, Vec::new());
            read_node(root, &mut queue, keep_others)
        },
    }
}

} // verus!
