//! The abstract syntax tree of a dice expression, and its mathematical model.

use vstd::prelude::*;

verus! {

/// The tag of a tree node. Leaf tags (`Integer`, `Higher`, `Lower`) take no
/// children; `Dice`, `Add` and `Subtract` take two; `Remove` takes three.
#[derive(Debug, Clone)]
pub enum Terminal {
    Integer(u32),
    Dice,
    Remove,
    Higher,
    Lower,
    Add,
    Subtract,
}

/// One node of the parse tree: a tag and its ordered children.
#[derive(Debug)]
pub struct ParseNode {
    pub children: Vec<ParseNode>,
    pub entry: Terminal,
}

/// The mathematical model of a [`ParseNode`]: the same tree with the child
/// vector abstracted to a `Seq`.
#[verifier::ext_equal]
pub struct NodeView {
    pub entry: Terminal,
    pub children: Seq<NodeView>,
}

/// The model of one node: the tag kept, the child vector abstracted.
pub open spec fn node_view(n: ParseNode) -> NodeView
    decreases n,
{
    NodeView { entry: n.entry, children: nodes_view(n.children@) }
}

/// The model of a sequence of nodes, element by element.
pub open spec fn nodes_view(s: Seq<ParseNode>) -> Seq<NodeView>
    decreases s,
{
    if s.len() == 0 {
        Seq::empty()
    } else {
        seq![node_view(s[0])] + nodes_view(s.drop_first())
    }
}

/// `nodes_view` maps `node_view` over the sequence, index by index.
pub proof fn lemma_nodes_view(s: Seq<ParseNode>)
    ensures
        nodes_view(s).len() == s.len(),
        forall|i: int| 0 <= i < s.len() ==> #[trigger] nodes_view(s)[i] == node_view(s[i]),
    decreases s,
{
    if s.len() > 0 {
        lemma_nodes_view(s.drop_first());
        assert forall|i: int| 0 <= i < s.len() implies #[trigger] nodes_view(s)[i] == node_view(
            s[i],
        ) by {
            if i > 0 {
                assert(nodes_view(s)[i] == nodes_view(s.drop_first())[i - 1]);
                assert(s.drop_first()[i - 1] == s[i]);
            }
        }
    }
}

/// The model of a node built from two children pushed onto a fresh vector.
pub proof fn lemma_view_two_children(node: ParseNode, a: ParseNode, b: ParseNode)
    requires
        node.children@ == Seq::<ParseNode>::empty().push(a).push(b),
    ensures
        node_view(node) == (NodeView {
            entry: node.entry,
            children: seq![node_view(a), node_view(b)],
        }),
{
    lemma_nodes_view(node.children@);
    assert(node.children@[0] == a);
    assert(node.children@[1] == b);
    assert(node_view(node).children =~= seq![node_view(a), node_view(b)]);
}

/// The model of a node built from three children pushed onto a fresh vector.
pub proof fn lemma_view_three_children(node: ParseNode, a: ParseNode, b: ParseNode, c: ParseNode)
    requires
        node.children@ == Seq::<ParseNode>::empty().push(a).push(b).push(c),
    ensures
        node_view(node) == (NodeView {
            entry: node.entry,
            children: seq![node_view(a), node_view(b), node_view(c)],
        }),
{
    lemma_nodes_view(node.children@);
    assert(node.children@[0] == a);
    assert(node.children@[1] == b);
    assert(node.children@[2] == c);
    assert(node_view(node).children =~= seq![node_view(a), node_view(b), node_view(c)]);
}

impl View for ParseNode {
    type V = NodeView;

    open spec fn view(&self) -> NodeView {
        node_view(*self)
    }
}

impl NodeView {
    /// The arity invariant of the tree: every tag has exactly the number of
    /// children its meaning calls for.
    pub open spec fn wf(self) -> bool
        decreases self,
    {
        match self.entry {
            Terminal::Integer(_) => self.children.len() == 0,
            Terminal::Higher => self.children.len() == 0,
            Terminal::Lower => self.children.len() == 0,
            Terminal::Dice => {
                &&& self.children.len() == 2
                &&& self.children[0].wf()
                &&& self.children[1].wf()
            },
            Terminal::Remove => {
                &&& self.children.len() == 3
                &&& self.children[0].wf()
                &&& self.children[1].wf()
                &&& self.children[2].wf()
            },
            Terminal::Add => {
                &&& self.children.len() == 2
                &&& self.children[0].wf()
                &&& self.children[1].wf()
            },
            Terminal::Subtract => {
                &&& self.children.len() == 2
                &&& self.children[0].wf()
                &&& self.children[1].wf()
            },
        }
    }

    /// An integer leaf, as the parser builds it.
    pub open spec fn int_leaf(n: u32) -> NodeView {
        NodeView { entry: Terminal::Integer(n), children: Seq::empty() }
    }

    /// A direction leaf: `Lower` for `'l'`, `Higher` for `'h'`.
    pub open spec fn dir_leaf(entry: Terminal) -> NodeView {
        NodeView { entry, children: Seq::empty() }
    }

    /// The shape of trees the `DiceOrInt` grammar rule produces: a bare
    /// integer leaf, or a `Dice` node whose count and size are integer leaves.
    pub open spec fn is_dice_or_int(self) -> bool {
        match self.entry {
            Terminal::Integer(_) => self.children.len() == 0,
            Terminal::Dice => {
                &&& self.children.len() == 2
                &&& self.children[0].entry is Integer
                &&& self.children[0].children.len() == 0
                &&& self.children[1].entry is Integer
                &&& self.children[1].children.len() == 0
            },
            _ => false,
        }
    }

    /// The shape of trees the `Term` grammar rule produces: a dice-or-int,
    /// possibly wrapped in a `Remove` node with an integer count leaf and a
    /// direction leaf.
    pub open spec fn is_term(self) -> bool {
        self.is_dice_or_int() || {
            &&& self.entry is Remove
            &&& self.children.len() == 3
            &&& self.children[0].is_dice_or_int()
            &&& self.children[1].entry is Integer
            &&& self.children[1].children.len() == 0
            &&& (self.children[2].entry is Higher || self.children[2].entry is Lower)
            &&& self.children[2].children.len() == 0
        }
    }

    /// The shape of trees the `Expr` grammar rule produces, and therefore the
    /// exact image of the parser: terms chained right-associatively under
    /// `Add`/`Subtract` nodes.
    pub open spec fn is_expr(self) -> bool
        decreases self,
    {
        self.is_term() || {
            &&& (self.entry is Add || self.entry is Subtract)
            &&& self.children.len() == 2
            &&& self.children[0].is_term()
            &&& self.children[1].is_expr()
        }
    }
}

/// A tree of dice-or-int shape satisfies the arity invariant.
pub proof fn lemma_dice_or_int_wf(v: NodeView)
    requires
        v.is_dice_or_int(),
    ensures
        v.wf(),
{
    if v.entry is Dice {
        assert(v.children[0].wf());
        assert(v.children[1].wf());
    }
}

/// A tree of term shape satisfies the arity invariant.
pub proof fn lemma_term_wf(v: NodeView)
    requires
        v.is_term(),
    ensures
        v.wf(),
{
    if v.is_dice_or_int() {
        lemma_dice_or_int_wf(v);
    } else {
        lemma_dice_or_int_wf(v.children[0]);
        assert(v.children[1].wf());
        assert(v.children[2].wf());
    }
}

/// Every tree in the parser's image satisfies the arity invariant.
pub proof fn lemma_expr_wf(v: NodeView)
    requires
        v.is_expr(),
    ensures
        v.wf(),
    decreases v,
{
    if v.is_term() {
        lemma_term_wf(v);
    } else {
        lemma_term_wf(v.children[0]);
        lemma_expr_wf(v.children[1]);
    }
}

impl ParseNode {
    /// A fresh node with no children and the `Dice` tag, ready to be filled
    /// in by the parser.
    pub fn new() -> (r: ParseNode)
        ensures
            r@ == (NodeView { entry: Terminal::Dice, children: Seq::<NodeView>::empty() }),
            r.children@ == Seq::<ParseNode>::empty(),
            r.entry == Terminal::Dice,
    {
        let r = ParseNode { children: Vec::new(), entry: Terminal::Dice };
        proof {
            assert(r@.children =~= Seq::<NodeView>::empty());
        }
        r
    }
}

} // verus!
