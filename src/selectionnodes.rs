//! The selection tree: boolean structure over field matchers.
use crate::chars::{split_bar, split_on_bar};
use crate::matchers::{text_views, DefaultMatcher};
use crate::record::LogRecord;
use std::sync::Arc;
use vstd::prelude::*;

verus! {

/// A node of a compiled selection tree.
pub enum SelectionNode {
    And(AndSelectionNode),
    All(AllSelectionNode),
    Or(OrSelectionNode),
    Not(NotSelectionNode),
    Ref(RefSelectionNode),
    Leaf(LeafSelectionNode),
}

/// True when every child is true.
pub struct AndSelectionNode {
    pub child_nodes: Vec<SelectionNode>,
}

/// True when every child is true; built from the `|all` list form.
pub struct AllSelectionNode {
    pub child_nodes: Vec<SelectionNode>,
}

/// True when some child is true.
pub struct OrSelectionNode {
    pub child_nodes: Vec<SelectionNode>,
}

/// True when its child is false.
pub struct NotSelectionNode {
    pub node: Box<SelectionNode>,
}

/// Forwards to a named selection, shared with every other reference to it.
pub struct RefSelectionNode {
    pub selection_node: Arc<SelectionNode>,
}

/// Matches one record field against a pattern.
pub struct LeafSelectionNode {
    pub key_list: Vec<String>,
    pub matcher: DefaultMatcher,
}

/// The record field a key list names: the part of its first key before any `|`.
pub open spec fn field_name(keys: Seq<Seq<char>>) -> Seq<char> {
    if keys.len() == 0 {
        Seq::<char>::empty()
    } else {
        split_bar(keys[0])[0]
    }
}

/// The value a leaf with key list `keys` hands its matcher: the named field,
/// where a second key, if any, is `value`; nothing for an empty field name.
pub open spec fn leaf_value(keys: Seq<Seq<char>>, e: LogRecord) -> Option<Seq<char>> {
    if keys.len() == 0 || field_name(keys).len() == 0 {
        None
    } else if keys.len() >= 2 && keys[1] != "value"@ {
        None
    } else {
        e.field_spec(field_name(keys))
    }
}

impl SelectionNode {
    /// Whether the record satisfies this node.
    pub open spec fn eval(&self, e: LogRecord) -> bool
        decreases self,
    {
        match self {
            SelectionNode::And(n) => forall|i: int|
                0 <= i < n.child_nodes@.len() ==> (#[trigger] n.child_nodes@[i]).eval(e),
            SelectionNode::All(n) => forall|i: int|
                0 <= i < n.child_nodes@.len() ==> (#[trigger] n.child_nodes@[i]).eval(e),
            SelectionNode::Or(n) => exists|i: int|
                0 <= i < n.child_nodes@.len() && (#[trigger] n.child_nodes@[i]).eval(e),
            SelectionNode::Not(n) => !(*n.node).eval(e),
            SelectionNode::Ref(n) => (*n.selection_node).eval(e),
            SelectionNode::Leaf(n) => n.matcher.matches_spec(
                leaf_value(text_views(n.key_list@), e),
            ),
        }
    }

    /// Some leaf under this node reads the field `name`.
    pub open spec fn reads_field(&self, name: Seq<char>) -> bool
        decreases self,
    {
        match self {
            SelectionNode::And(n) => exists|i: int|
                0 <= i < n.child_nodes@.len() && (#[trigger] n.child_nodes@[i]).reads_field(name),
            SelectionNode::All(n) => exists|i: int|
                0 <= i < n.child_nodes@.len() && (#[trigger] n.child_nodes@[i]).reads_field(name),
            SelectionNode::Or(n) => exists|i: int|
                0 <= i < n.child_nodes@.len() && (#[trigger] n.child_nodes@[i]).reads_field(name),
            SelectionNode::Not(n) => (*n.node).reads_field(name),
            SelectionNode::Ref(n) => (*n.selection_node).reads_field(name),
            SelectionNode::Leaf(n) => field_name(text_views(n.key_list@)) == name,
        }
    }

    /// Evaluates the node against a record.
    pub fn select(&self, event_record: &LogRecord) -> (r: bool)
        ensures
            r == self.eval(*event_record),
        decreases self,
    {
        match self {
            SelectionNode::And(n) => select_all(&n.child_nodes, event_record),
            SelectionNode::All(n) => select_all(&n.child_nodes, event_record),
            SelectionNode::Or(n) => select_any(&n.child_nodes, event_record),
            SelectionNode::Not(n) => !n.node.select(event_record),
            SelectionNode::Ref(n) => n.selection_node.select(event_record),
            SelectionNode::Leaf(n) => n.select(event_record),
        }
    }
}

fn select_all(children: &Vec<SelectionNode>, event_record: &LogRecord) -> (r: bool)
    ensures
        r == forall|i: int| 0 <= i < children@.len() ==> (#[trigger] children@[i]).eval(*event_record),
    decreases children,
{
    let mut i: usize = 0;
    while i < children.len()
        invariant
            i <= children@.len(),
            forall|j: int| 0 <= j < i ==> (#[trigger] children@[j]).eval(*event_record),
        decreases children@.len() - i,
    {
        if !children[i].select(event_record) {
            return false;
        }
        i = i + 1;
    }
    true
}

fn select_any(children: &Vec<SelectionNode>, event_record: &LogRecord) -> (r: bool)
    ensures
        r == exists|i: int| 0 <= i < children@.len() && (#[trigger] children@[i]).eval(*event_record),
    decreases children,
{
    let mut i: usize = 0;
    while i < children.len()
        invariant
            i <= children@.len(),
            forall|j: int| 0 <= j < i ==> !(#[trigger] children@[j]).eval(*event_record),
        decreases children@.len() - i,
    {
        if children[i].select(event_record) {
            assert(children@[i as int].eval(*event_record));
            return true;
        }
        i = i + 1;
    }
    false
}

impl AndSelectionNode {
    pub fn new() -> (r: AndSelectionNode)
        ensures
            r.child_nodes@.len() == 0,
    {
        AndSelectionNode { child_nodes: Vec::new() }
    }
}

impl AndSelectionNode {
    /// This node as a tree node: true when every child is true.
    pub fn into_node(self) -> (r: SelectionNode)
        ensures
            forall|e: LogRecord|
                #[trigger] r.eval(e) == forall|i: int|
                    0 <= i < self.child_nodes@.len() ==> (#[trigger] self.child_nodes@[i]).eval(e),
    {
        let r = SelectionNode::And(self);
        assert forall|e: LogRecord| #[trigger] r.eval(e) == forall|i: int|
            0 <= i < self.child_nodes@.len() ==> (#[trigger] self.child_nodes@[i]).eval(e) by {
            assert(r->And_0 == self);
        }
        r
    }
}

impl OrSelectionNode {
    /// This node as a tree node: true when some child is true.
    pub fn into_node(self) -> (r: SelectionNode)
        ensures
            forall|e: LogRecord|
                #[trigger] r.eval(e) == exists|i: int|
                    0 <= i < self.child_nodes@.len() && (#[trigger] self.child_nodes@[i]).eval(e),
    {
        let r = SelectionNode::Or(self);
        assert forall|e: LogRecord| #[trigger] r.eval(e) == exists|i: int|
            0 <= i < self.child_nodes@.len() && (#[trigger] self.child_nodes@[i]).eval(e) by {
            assert(r->Or_0 == self);
        }
        r
    }
}

impl AllSelectionNode {
    pub fn new() -> (r: AllSelectionNode)
        ensures
            r.child_nodes@.len() == 0,
    {
        AllSelectionNode { child_nodes: Vec::new() }
    }
}

impl OrSelectionNode {
    pub fn new() -> (r: OrSelectionNode)
        ensures
            r.child_nodes@.len() == 0,
    {
        OrSelectionNode { child_nodes: Vec::new() }
    }
}

impl NotSelectionNode {
    pub fn new(select_node: SelectionNode) -> (r: NotSelectionNode)
        ensures
            *r.node == select_node,
    {
        NotSelectionNode { node: Box::new(select_node) }
    }
}

impl RefSelectionNode {
    pub fn new(select_node: Arc<SelectionNode>) -> (r: RefSelectionNode)
        ensures
            r.selection_node == select_node,
    {
        RefSelectionNode { selection_node: select_node }
    }
}

impl LeafSelectionNode {
    pub fn new(keys: Vec<String>, matcher: DefaultMatcher) -> (r: LeafSelectionNode)
        ensures
            r.key_list == keys,
            r.matcher == matcher,
    {
        LeafSelectionNode { key_list: keys, matcher }
    }

    /// Looks up the field the key list names and hands it to the matcher.
    pub fn select(&self, event_record: &LogRecord) -> (r: bool)
        ensures
            r == self.matcher.matches_spec(
                leaf_value(text_views(self.key_list@), *event_record),
            ),
    {
        let ghost keys = text_views(self.key_list@);
        if self.key_list.len() == 0 {
            return self.matcher.is_match(None);
        }
        let target = self.matcher.is_target_key(&self.key_list);
        let parts = split_on_bar(self.key_list[0].as_str());
        proof {
            crate::chars::lemma_split_bar_nonempty(self.key_list@[0]@);
        }
        assert(parts@[0]@ == field_name(keys));
        if parts[0].as_str().is_empty() {
            return self.matcher.is_match(None);
        }
        if !target {
            return self.matcher.is_match(None);
        }
        let value = event_record.field(parts[0].as_str());
        match value {
            Some(v) => self.matcher.is_match(Some(&v)),
            None => self.matcher.is_match(None),
        }
    }
}

/// Negating a node twice gives back its verdict on every record.
pub proof fn lemma_double_negation(x: SelectionNode, e: LogRecord)
    ensures
        SelectionNode::Not(
            NotSelectionNode {
                node: Box::new(SelectionNode::Not(NotSelectionNode { node: Box::new(x) })),
            },
        ).eval(e) == x.eval(e),
{
    let inner = SelectionNode::Not(NotSelectionNode { node: Box::new(x) });
    assert(inner.eval(e) == !x.eval(e));
    let outer = SelectionNode::Not(NotSelectionNode { node: Box::new(inner) });
    assert(outer.eval(e) == !inner.eval(e));
}

/// A node's verdict depends only on the fields its leaves read: two records
/// that agree on those fields get the same verdict.
pub proof fn lemma_eval_reads_only_leaf_fields(n: &SelectionNode, e1: LogRecord, e2: LogRecord)
    requires
        forall|name: Seq<char>| #[trigger] n.reads_field(name) ==> e1.field_spec(name) == e2.field_spec(name),
    ensures
        n.eval(e1) == n.eval(e2),
    decreases n,
{
    match n {
        SelectionNode::And(a) => {
            assert forall|i: int| 0 <= i < a.child_nodes@.len() implies (#[trigger] a.child_nodes@[i]).eval(e1)
                == a.child_nodes@[i].eval(e2) by {
                let c = a.child_nodes@[i];
                assert forall|name: Seq<char>| #[trigger] c.reads_field(name) implies e1.field_spec(name)
                    == e2.field_spec(name) by {
                    assert(n.reads_field(name));
                }
                lemma_eval_reads_only_leaf_fields(&c, e1, e2);
            }
        },
        SelectionNode::All(a) => {
            assert forall|i: int| 0 <= i < a.child_nodes@.len() implies (#[trigger] a.child_nodes@[i]).eval(e1)
                == a.child_nodes@[i].eval(e2) by {
                let c = a.child_nodes@[i];
                assert forall|name: Seq<char>| #[trigger] c.reads_field(name) implies e1.field_spec(name)
                    == e2.field_spec(name) by {
                    assert(n.reads_field(name));
                }
                lemma_eval_reads_only_leaf_fields(&c, e1, e2);
            }
        },
        SelectionNode::Or(a) => {
            assert forall|i: int| 0 <= i < a.child_nodes@.len() implies (#[trigger] a.child_nodes@[i]).eval(e1)
                == a.child_nodes@[i].eval(e2) by {
                let c = a.child_nodes@[i];
                assert forall|name: Seq<char>| #[trigger] c.reads_field(name) implies e1.field_spec(name)
                    == e2.field_spec(name) by {
                    assert(n.reads_field(name));
                }
                lemma_eval_reads_only_leaf_fields(&c, e1, e2);
            }
        },
        SelectionNode::Not(a) => {
            assert forall|name: Seq<char>| #[trigger] (*a.node).reads_field(name) implies e1.field_spec(name)
                == e2.field_spec(name) by {
                assert(n.reads_field(name));
            }
            lemma_eval_reads_only_leaf_fields(&*a.node, e1, e2);
        },
        SelectionNode::Ref(a) => {
            assert forall|name: Seq<char>| #[trigger] (*a.selection_node).reads_field(name) implies e1.field_spec(name)
                == e2.field_spec(name) by {
                assert(n.reads_field(name));
            }
            lemma_eval_reads_only_leaf_fields(&*a.selection_node, e1, e2);
        },
        SelectionNode::Leaf(a) => {
            assert(n.reads_field(field_name(text_views(a.key_list@))));
        },
    }
}

} // verus!
