//! One named grammar rule and how extension grows it: re-defining a name
//! with the extension operator appends the new definition as a further
//! `Select` branch, never replacing the original.

use vstd::prelude::*;
use crate::definition::{
    dview_seq, lemma_dview_seq_empty, lemma_dview_seq_push, BnfDefinition, DefView,
};

verus! {

/// The mathematical shape of a named rule.
pub ghost struct RuleV {
    pub name: Seq<char>,
    pub def: DefView,
}

/// Extending a definition with one more alternative: a `Select` root gains
/// a branch; any other root is promoted to a two-branch `Select`.
pub open spec fn select_append(d: DefView, n: DefView) -> DefView {
    match d {
        DefView::Select(v) => DefView::Select(v.push(n)),
        _ => DefView::Select(seq![d, n]),
    }
}

/// Extension never discards the original definition: the extended root is
/// always a `Select`; a non-`Select` original becomes its first branch,
/// the branches of a `Select` original stay in place, and the new
/// alternative always comes last.
pub proof fn lemma_extension_keeps_original(d: DefView, n: DefView)
    ensures
        select_append(d, n) is Select,
        !(d is Select) ==> select_append(d, n)->Select_0.len() == 2,
        d is Select ==> select_append(d, n)->Select_0.len() == d->Select_0.len() + 1,
        !(d is Select) ==> select_append(d, n)->Select_0 == seq![d, n],
        !(d is Select) ==> select_append(d, n)->Select_0[0] == d,
        d is Select ==> select_append(d, n)->Select_0 == d->Select_0.push(n),
        d is Select ==> (forall|i: int|
            0 <= i < d->Select_0.len() ==> select_append(d, n)->Select_0[i] == d->Select_0[i]),
        select_append(d, n)->Select_0.last() == n,
{
    match d {
        DefView::Select(v) => {},
        _ => {
            assert(seq![d, n].len() == 2);
        },
    }
}

/// A named rule: its name and one owned definition tree.
pub struct AbnfRule {
    name: String,
    definition: Box<BnfDefinition>,
}

impl AbnfRule {
    /// The name of this rule.
    pub closed spec fn name_spec(&self) -> Seq<char> {
        self.name@
    }

    /// The shape of this rule's definition.
    pub closed spec fn def_view(&self) -> DefView {
        (*self.definition).dview()
    }

    /// The mathematical shape of this rule.
    pub open spec fn rv(&self) -> RuleV {
        RuleV { name: self.name_spec(), def: self.def_view() }
    }

    pub fn new(rule_name: &str, definition: Box<BnfDefinition>) -> (r: AbnfRule)
        ensures
            r.name_spec() == rule_name@,
            r.def_view() == (*definition).dview(),
    {
        AbnfRule { name: rule_name.to_owned(), definition }
    }

    pub fn get_name(&self) -> (r: &str)
        ensures
            r@ == self.name_spec(),
    {
        self.name.as_str()
    }

    pub fn get_definition(&self) -> (r: &BnfDefinition)
        ensures
            r.dview() == self.def_view(),
    {
        &self.definition
    }

    /// Append one more alternative to this rule's definition, promoting a
    /// non-`Select` root to a two-branch `Select` the first time.
    pub fn append_select(&mut self, definition: Box<BnfDefinition>)
        ensures
            final(self).name_spec() == old(self).name_spec(),
            final(self).def_view() == select_append(
                old(self).def_view(),
                (*definition).dview(),
            ),
    {
        let ghost new_view = (*definition).dview();
        let ghost old_view = self.def_view();
        let mut taken: Box<BnfDefinition> = Box::new(BnfDefinition::Series(Vec::new()));
        core::mem::swap(&mut self.definition, &mut taken);
        match *taken {
            BnfDefinition::Select(mut branches) => {
                let ghost pre = branches@;
                branches.push(definition);
                proof {
                    assert(branches@ =~= pre.push(definition));
                    lemma_dview_seq_push(pre, definition);
                }
                self.definition = Box::new(BnfDefinition::Select(branches));
            },
            other => {
                let ghost other_view = other.dview();
                let pair: Vec<Box<BnfDefinition>> = vec![Box::new(other), definition];
                proof {
                    let e = Seq::<Box<BnfDefinition>>::empty();
                    assert(pair@ =~= e.push(pair@[0]).push(pair@[1]));
                    lemma_dview_seq_empty();
                    lemma_dview_seq_push(e, pair@[0]);
                    lemma_dview_seq_push(e.push(pair@[0]), pair@[1]);
                    assert(dview_seq(pair@) =~= seq![other_view, new_view]);
                }
                self.definition = Box::new(BnfDefinition::Select(pair));
            },
        }
    }
}

} // verus!
