//! The parse-tree output of the grammar interpreter: a rule label set only
//! at rule boundaries, a literal value set only at terminal matches, and
//! the children in evaluation order.

use vstd::prelude::*;

verus! {

/// The mathematical shape of a parse-tree node.
pub ghost struct TreeV {
    pub rule: Seq<char>,
    pub value: Seq<char>,
    pub children: Seq<TreeV>,
}

/// One node of the parse tree.
pub struct GrammarTreeNode {
    rule: String,
    value: String,
    children: Vec<Box<GrammarTreeNode>>,
}

/// The mathematical shapes of a list of child nodes, in order.
pub open spec fn tview_seq(v: Seq<Box<GrammarTreeNode>>) -> Seq<TreeV>
    decreases v,
{
    if v.len() == 0 {
        Seq::<TreeV>::empty()
    } else {
        tview_seq(v.subrange(0, v.len() - 1)).push((*v[v.len() - 1]).tview())
    }
}

/// The shape list of an extended child list is the extended shape list.
pub proof fn lemma_tview_seq_push(v: Seq<Box<GrammarTreeNode>>, b: Box<GrammarTreeNode>)
    ensures
        tview_seq(v.push(b)) == tview_seq(v).push((*b).tview()),
{
    assert(v.push(b).subrange(0, v.len() as int) =~= v);
}

/// The shape list of an empty child list is empty.
pub proof fn lemma_tview_seq_empty()
    ensures
        tview_seq(Seq::<Box<GrammarTreeNode>>::empty()) == Seq::<TreeV>::empty(),
{
}

impl GrammarTreeNode {
    /// The mathematical shape of this node.
    pub open spec fn tview(&self) -> TreeV
        decreases self,
    {
        TreeV { rule: self.rule_spec(), value: self.value_spec(), children: tview_seq(self.children_seq()) }
    }

    /// The rule label of this node.
    pub closed spec fn rule_spec(&self) -> Seq<char> {
        self.rule@
    }

    /// The literal value of this node.
    pub closed spec fn value_spec(&self) -> Seq<char> {
        self.value@
    }

    /// The owned children of this node.
    pub closed spec fn children_seq(&self) -> Seq<Box<GrammarTreeNode>> {
        self.children@
    }

    /// A fresh node: no rule label, no value, no children.
    pub fn new() -> (r: GrammarTreeNode)
        ensures
            r.tview() == (TreeV {
                rule: Seq::<char>::empty(),
                value: Seq::<char>::empty(),
                children: Seq::<TreeV>::empty(),
            }),
    {
        let r = GrammarTreeNode { rule: String::new(), value: String::new(), children: Vec::new() };
        proof {
            assert(r.children_seq() =~= Seq::<Box<GrammarTreeNode>>::empty());
            lemma_tview_seq_empty();
            assert(r.rule_spec() =~= Seq::<char>::empty());
            assert(r.value_spec() =~= Seq::<char>::empty());
        }
        r
    }

    /// Set the rule label: always when `must_set` holds, and otherwise
    /// only if no label was set yet.
    pub fn set_rule(&mut self, must_set: bool, rule: String)
        ensures
            final(self).value_spec() == old(self).value_spec(),
            final(self).children_seq() == old(self).children_seq(),
            (must_set || old(self).rule_spec().len() == 0) ==> final(self).rule_spec() == rule@,
            !(must_set || old(self).rule_spec().len() == 0) ==> final(self).rule_spec() == old(
                self,
            ).rule_spec(),
    {
        if must_set || self.rule.as_str().is_empty() {
            self.rule = rule;
        }
    }

    /// Set the literal value.
    pub fn set_value(&mut self, value: String)
        ensures
            final(self).rule_spec() == old(self).rule_spec(),
            final(self).children_seq() == old(self).children_seq(),
            final(self).value_spec() == value@,
    {
        self.value = value;
    }

    /// The rule label of this node.
    pub fn get_rule_name(&self) -> (r: &str)
        ensures
            r@ == self.rule_spec(),
    {
        self.rule.as_str()
    }

    /// The literal value of this node.
    pub fn get_value(&self) -> (r: &str)
        ensures
            r@ == self.value_spec(),
    {
        self.value.as_str()
    }

    /// The children of this node, in evaluation order.
    pub fn get_children(&self) -> (r: &Vec<Box<GrammarTreeNode>>)
        ensures
            r@ == self.children_seq(),
    {
        &self.children
    }

    /// Append one child node.
    pub fn append_child(&mut self, node: Box<GrammarTreeNode>)
        ensures
            final(self).rule_spec() == old(self).rule_spec(),
            final(self).value_spec() == old(self).value_spec(),
            final(self).children_seq() == old(self).children_seq().push(node),
            final(self).tview().children == tview_seq(old(self).children_seq()).push(
                (*node).tview(),
            ),
    {
        let ghost pre = self.children@;
        self.children.push(node);
        proof {
            assert(self.children@ =~= pre.push(node));
            lemma_tview_seq_push(pre, node);
        }
    }
}

} // verus!
