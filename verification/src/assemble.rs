//! How a rule body is assembled from its parsed elements: consecutive
//! elements not separated by an alternation marker concatenate into a
//! `Series`; a marker starts a fresh alternative; at the terminator the
//! alternatives become a `Select`, or collapse to a single node. The laws
//! at the end state the single-element, series and select shapes of this
//! assembly for every body.

use vstd::prelude::*;
use crate::definition::{
    dview_seq, lemma_dview_seq_empty, lemma_dview_seq_push, BnfDefinition, DefView,
};
use crate::errors::ParseError;

verus! {

/// One step of a rule body: a parsed element, or the alternation marker.
pub ghost enum BodyEvent {
    Element(DefView),
    Marker,
}

/// A run of elements as one node: a single element stands for itself, more
/// than one form a `Series` in order.
pub open spec fn collapse(s: Seq<DefView>) -> DefView {
    if s.len() == 1 {
        s[0]
    } else {
        DefView::Series(s)
    }
}

/// Concatenating one more element onto the last node of an alternative.
pub open spec fn series_join(last: DefView, node: DefView) -> DefView {
    match last {
        DefView::Series(v) => DefView::Series(v.push(node)),
        _ => DefView::Series(seq![last, node]),
    }
}

/// One parsed element lands either as a fresh alternative or concatenated
/// onto the current one.
pub open spec fn step_elem(alts: Seq<DefView>, fresh: bool, node: DefView) -> Seq<DefView> {
    if fresh || alts.len() == 0 {
        alts.push(node)
    } else {
        alts.update(alts.len() - 1, series_join(alts.last(), node))
    }
}

/// The alternative list and freshness flag after the given events, starting
/// from the given state.
pub open spec fn run_from(alts: Seq<DefView>, fresh: bool, events: Seq<BodyEvent>) -> (Seq<
    DefView,
>, bool)
    decreases events.len(),
{
    if events.len() == 0 {
        (alts, fresh)
    } else {
        match events[0] {
            BodyEvent::Element(d) => run_from(
                step_elem(alts, fresh, d),
                false,
                events.drop_first(),
            ),
            BodyEvent::Marker => run_from(alts, true, events.drop_first()),
        }
    }
}

/// The alternative list and freshness flag a whole body's events produce.
pub open spec fn run_body(events: Seq<BodyEvent>) -> (Seq<DefView>, bool) {
    run_from(Seq::<DefView>::empty(), true, events)
}

/// How many alternation markers a body's events hold.
pub open spec fn marker_count(events: Seq<BodyEvent>) -> int
    decreases events.len(),
{
    if events.len() == 0 {
        0
    } else {
        (match events[0] {
            BodyEvent::Marker => 1int,
            BodyEvent::Element(_) => 0int,
        }) + marker_count(events.drop_first())
    }
}

/// A marker count is never negative.
pub proof fn lemma_marker_count_nonneg(events: Seq<BodyEvent>)
    ensures
        marker_count(events) >= 0,
    decreases events.len(),
{
    if events.len() > 0 {
        lemma_marker_count_nonneg(events.drop_first());
    }
}

/// What an assembled alternative list yields at the terminator: an empty
/// body fails; with a marker seen, fewer than two alternatives fail and two
/// or more become a `Select`; without a marker the single alternative
/// stands for itself.
pub open spec fn finish_alts(alts: Seq<DefView>, saw_marker: bool) -> Result<
    DefView,
    ParseError,
> {
    if alts.len() == 0 {
        Err(ParseError::EmptyOrMalformedAlternation)
    } else if saw_marker {
        if alts.len() < 2 {
            Err(ParseError::EmptyOrMalformedAlternation)
        } else {
            Ok(DefView::Select(alts))
        }
    } else if alts.len() == 1 {
        Ok(alts[0])
    } else {
        Ok(DefView::Select(alts))
    }
}

/// What a whole body's events compile to.
pub open spec fn finish_body(events: Seq<BodyEvent>) -> Result<DefView, ParseError> {
    finish_alts(run_body(events).0, marker_count(events) > 0)
}

/// The events of one run of consecutive elements.
pub open spec fn group_events(g: Seq<DefView>) -> Seq<BodyEvent>
    decreases g.len(),
{
    if g.len() == 0 {
        Seq::<BodyEvent>::empty()
    } else {
        seq![BodyEvent::Element(g[0])] + group_events(g.drop_first())
    }
}

/// The events of the remaining alternatives, each preceded by a marker.
pub open spec fn tail_groups_events(groups: Seq<Seq<DefView>>) -> Seq<BodyEvent>
    decreases groups.len(),
{
    if groups.len() == 0 {
        Seq::<BodyEvent>::empty()
    } else {
        seq![BodyEvent::Marker] + group_events(groups[0]) + tail_groups_events(
            groups.drop_first(),
        )
    }
}

/// The events of a body whose alternatives are the given element runs.
pub open spec fn events_of_groups(groups: Seq<Seq<DefView>>) -> Seq<BodyEvent> {
    if groups.len() == 0 {
        Seq::<BodyEvent>::empty()
    } else {
        group_events(groups[0]) + tail_groups_events(groups.drop_first())
    }
}

/// Running a concatenation is running the two parts in turn.
pub proof fn lemma_run_from_concat(alts: Seq<DefView>, fresh: bool, a: Seq<BodyEvent>, b: Seq<
    BodyEvent,
>)
    ensures
        run_from(alts, fresh, a + b) == run_from(run_from(alts, fresh, a).0, run_from(alts, fresh, a).1, b),
    decreases a.len(),
{
    if a.len() == 0 {
        assert(a + b =~= b);
    } else {
        assert((a + b).drop_first() =~= a.drop_first() + b);
        match a[0] {
            BodyEvent::Element(d) => {
                lemma_run_from_concat(step_elem(alts, fresh, d), false, a.drop_first(), b);
            },
            BodyEvent::Marker => {
                lemma_run_from_concat(alts, true, a.drop_first(), b);
            },
        }
    }
}

/// Continuing a non-fresh alternative with more elements extends its run.
/// A run's opening element must not itself be a `Series`: joining onto one
/// would extend it instead of nesting it.
proof fn lemma_group_cont(alts: Seq<DefView>, acc: Seq<DefView>, rest: Seq<DefView>)
    requires
        acc.len() >= 1,
        acc.len() == 1 ==> !(acc[0] is Series),
    ensures
        run_from(alts.push(collapse(acc)), false, group_events(rest)) == (
            alts.push(collapse(acc + rest)),
            false,
        ),
    decreases rest.len(),
{
    if rest.len() == 0 {
        assert(acc + rest =~= acc);
    } else {
        assert(group_events(rest).drop_first() =~= group_events(rest.drop_first()));
        assert(group_events(rest)[0] == BodyEvent::Element(rest[0]));
        let joined = step_elem(alts.push(collapse(acc)), false, rest[0]);
        assert(joined =~= alts.push(series_join(collapse(acc), rest[0])));
        assert(series_join(collapse(acc), rest[0]) == collapse(acc.push(rest[0]))) by {
            if acc.len() == 1 {
                assert(seq![acc[0], rest[0]] =~= acc.push(rest[0]));
            }
        }
        lemma_group_cont(alts, acc.push(rest[0]), rest.drop_first());
        assert(acc.push(rest[0]) + rest.drop_first() =~= acc + rest);
    }
}

/// Running one nonempty element run from a fresh state appends exactly its
/// collapsed node. The run's opening element must not itself be a `Series`
/// (the compiler never produces one as an element).
pub proof fn lemma_run_group(alts: Seq<DefView>, g: Seq<DefView>)
    requires
        g.len() >= 1,
        !(g[0] is Series),
    ensures
        run_from(alts, true, group_events(g)) == (alts.push(collapse(g)), false),
{
    assert(step_elem(alts, true, g[0]) == alts.push(g[0]));
    assert(group_events(g).drop_first() =~= group_events(g.drop_first()));
    lemma_group_cont(alts, seq![g[0]], g.drop_first());
    assert(seq![g[0]] + g.drop_first() =~= g);
    assert(seq![g[0]].len() == 1);
    assert(collapse(seq![g[0]]) == g[0]);
}

/// Running the remaining alternatives appends their collapsed nodes.
proof fn lemma_run_tail_groups(alts: Seq<DefView>, fresh: bool, groups: Seq<Seq<DefView>>)
    requires
        forall|i: int| 0 <= i < groups.len() ==> #[trigger] groups[i].len() >= 1,
        forall|i: int| 0 <= i < groups.len() ==> !(#[trigger] groups[i][0] is Series),
    ensures
        run_from(alts, fresh, tail_groups_events(groups)) == (
            alts + groups.map_values(|g: Seq<DefView>| collapse(g)),
            if groups.len() == 0 {
                fresh
            } else {
                false
            },
        ),
    decreases groups.len(),
{
    let f = |g: Seq<DefView>| collapse(g);
    if groups.len() == 0 {
        assert(alts + groups.map_values(f) =~= alts);
    } else {
        let ev = seq![BodyEvent::Marker] + group_events(groups[0]) + tail_groups_events(
            groups.drop_first(),
        );
        assert(tail_groups_events(groups) == ev);
        let head = seq![BodyEvent::Marker] + group_events(groups[0]);
        assert(ev =~= head + tail_groups_events(groups.drop_first()));
        lemma_run_from_concat(alts, fresh, head, tail_groups_events(groups.drop_first()));
        assert(head.drop_first() =~= group_events(groups[0]));
        lemma_run_group(alts, groups[0]);
        assert(run_from(alts, fresh, head) == (alts.push(collapse(groups[0])), false));
        lemma_run_tail_groups(alts.push(collapse(groups[0])), false, groups.drop_first());
        assert(alts.push(collapse(groups[0])) + groups.drop_first().map_values(f) =~= alts
            + groups.map_values(f)) by {
            assert(groups.map_values(f)[0] == f(groups[0]));
            assert(groups.map_values(f).drop_first() =~= groups.drop_first().map_values(f));
        }
    }
}

/// A nonempty element run holds no marker.
proof fn lemma_group_marker_count(g: Seq<DefView>)
    ensures
        marker_count(group_events(g)) == 0,
    decreases g.len(),
{
    if g.len() > 0 {
        assert(group_events(g).drop_first() =~= group_events(g.drop_first()));
        lemma_group_marker_count(g.drop_first());
    }
}

/// Marker counts add over concatenation.
proof fn lemma_marker_count_concat(a: Seq<BodyEvent>, b: Seq<BodyEvent>)
    ensures
        marker_count(a + b) == marker_count(a) + marker_count(b),
    decreases a.len(),
{
    if a.len() == 0 {
        assert(a + b =~= b);
    } else {
        assert((a + b).drop_first() =~= a.drop_first() + b);
        lemma_marker_count_concat(a.drop_first(), b);
    }
}

/// The remaining alternatives carry one marker each.
proof fn lemma_tail_groups_marker_count(groups: Seq<Seq<DefView>>)
    ensures
        marker_count(tail_groups_events(groups)) == groups.len(),
    decreases groups.len(),
{
    if groups.len() > 0 {
        let head = seq![BodyEvent::Marker] + group_events(groups[0]);
        assert(tail_groups_events(groups) =~= head + tail_groups_events(groups.drop_first()));
        lemma_marker_count_concat(head, tail_groups_events(groups.drop_first()));
        assert(head.drop_first() =~= group_events(groups[0]));
        lemma_group_marker_count(groups[0]);
        lemma_tail_groups_marker_count(groups.drop_first());
    }
}

/// A body with no alternation marker and exactly one element compiles to
/// that element itself, not wrapped in a `Series`.
pub proof fn lemma_single_element_body(d: DefView)
    ensures
        marker_count(seq![BodyEvent::Element(d)]) == 0,
        finish_body(seq![BodyEvent::Element(d)]) == Ok::<DefView, ParseError>(d),
{
    let ev = seq![BodyEvent::Element(d)];
    assert(ev.drop_first() =~= Seq::<BodyEvent>::empty());
    assert(marker_count(Seq::<BodyEvent>::empty()) == 0);
    let alts1 = step_elem(Seq::<DefView>::empty(), true, d);
    assert(alts1 =~= seq![d]);
    assert(run_from(alts1, false, Seq::<BodyEvent>::empty()) == (alts1, false));
    assert(run_body(ev).0 == seq![d]);
}

/// A body with no alternation marker and more than one element compiles to
/// a `Series` of exactly those elements, in source order. The opening
/// element must not itself be a `Series` (the compiler never produces one
/// as an element).
pub proof fn lemma_series_body(elems: Seq<DefView>)
    requires
        elems.len() > 1,
        !(elems[0] is Series),
    ensures
        marker_count(group_events(elems)) == 0,
        finish_body(group_events(elems)) == Ok::<DefView, ParseError>(DefView::Series(elems)),
{
    lemma_group_marker_count(elems);
    lemma_run_group(Seq::<DefView>::empty(), elems);
    assert(run_body(group_events(elems)).0 == seq![collapse(elems)]) by {
        assert(Seq::<DefView>::empty().push(collapse(elems)) =~= seq![collapse(elems)]);
    }
}

/// A body whose alternatives are M+1 nonempty element runs, separated by
/// M >= 1 alternation markers, compiles to a `Select` of exactly M+1
/// branches, each branch collapsed by the single/multi rule above. No
/// run's opening element is itself a `Series` (the compiler never produces
/// one as an element).
pub proof fn lemma_select_body(groups: Seq<Seq<DefView>>)
    requires
        groups.len() >= 2,
        forall|i: int| 0 <= i < groups.len() ==> #[trigger] groups[i].len() >= 1,
        forall|i: int| 0 <= i < groups.len() ==> !(#[trigger] groups[i][0] is Series),
    ensures
        marker_count(events_of_groups(groups)) == groups.len() - 1,
        finish_body(events_of_groups(groups)) == Ok::<DefView, ParseError>(
            DefView::Select(groups.map_values(|g: Seq<DefView>| collapse(g))),
        ),
{
    let f = |g: Seq<DefView>| collapse(g);
    let ev = events_of_groups(groups);
    lemma_marker_count_concat(group_events(groups[0]), tail_groups_events(groups.drop_first()));
    lemma_group_marker_count(groups[0]);
    lemma_tail_groups_marker_count(groups.drop_first());
    lemma_run_from_concat(
        Seq::<DefView>::empty(),
        true,
        group_events(groups[0]),
        tail_groups_events(groups.drop_first()),
    );
    lemma_run_group(Seq::<DefView>::empty(), groups[0]);
    lemma_run_tail_groups(
        Seq::<DefView>::empty().push(collapse(groups[0])),
        false,
        groups.drop_first(),
    );
    assert(run_body(ev).0 =~= groups.map_values(f)) by {
        assert(groups.map_values(f)[0] == f(groups[0]));
        assert(groups.map_values(f).drop_first() =~= groups.drop_first().map_values(f));
        assert(Seq::<DefView>::empty().push(collapse(groups[0])) + groups.drop_first().map_values(
            f,
        ) =~= groups.map_values(f));
    }
}

/// Land one parsed element: as a fresh alternative, or concatenated onto
/// the last one, promoting it to (or extending) a `Series`.
pub fn push_element(alts: &mut Vec<Box<BnfDefinition>>, fresh: bool, node: Box<BnfDefinition>)
    ensures
        dview_seq(final(alts)@) == step_elem(dview_seq(old(alts)@), fresh, (*node).dview()),
{
    let ghost pre = alts@;
    let ghost node_view = (*node).dview();
    proof {
        crate::definition::lemma_dview_seq_len(pre);
    }
    if fresh || alts.len() == 0 {
        alts.push(node);
        proof {
            assert(alts@.drop_last() =~= pre);
            assert(dview_seq(alts@) == dview_seq(pre).push(node_view));
        }
    } else {
        let last = alts.pop().unwrap();
        let ghost last_view = (*last).dview();
        proof {
            assert(pre.drop_last() =~= alts@);
            assert(dview_seq(pre) == dview_seq(alts@).push(last_view));
        }
        let joined: Box<BnfDefinition> = match *last {
            BnfDefinition::Series(mut children) => {
                let ghost pre_children = children@;
                children.push(node);
                proof {
                    assert(children@.drop_last() =~= pre_children);
                    assert(dview_seq(children@) == dview_seq(pre_children).push(node_view));
                }
                Box::new(BnfDefinition::Series(children))
            },
            other => {
                let pair: Vec<Box<BnfDefinition>> = vec![Box::new(other), node];
                proof {
                    let e = Seq::<Box<BnfDefinition>>::empty();
                    assert(pair@ =~= e.push(pair@[0]).push(pair@[1]));
                    lemma_dview_seq_empty();
                    lemma_dview_seq_push(e, pair@[0]);
                    lemma_dview_seq_push(e.push(pair@[0]), pair@[1]);
                    assert(dview_seq(pair@) =~= seq![last_view, node_view]);
                }
                Box::new(BnfDefinition::Series(pair))
            },
        };
        let ghost joined_view = (*joined).dview();
        proof {
            assert(joined_view == series_join(last_view, node_view));
        }
        alts.push(joined);
        proof {
            assert(alts@.drop_last() =~= pre.drop_last());
            assert(dview_seq(alts@) == dview_seq(pre.drop_last()).push(joined_view));
            assert(step_elem(dview_seq(pre), fresh, node_view) =~= dview_seq(pre).update(
                dview_seq(pre).len() - 1,
                series_join(dview_seq(pre).last(), node_view),
            ));
            assert(dview_seq(pre).last() == last_view);
            assert(dview_seq(pre).update(
                dview_seq(pre).len() - 1,
                series_join(last_view, node_view),
            ) =~= dview_seq(pre.drop_last()).push(series_join(last_view, node_view)));
        }
    }
}

/// What the collected alternatives yield at the terminator.
pub fn assemble_result(alts: Vec<Box<BnfDefinition>>, saw_marker: bool) -> (r: Result<
    Box<BnfDefinition>,
    ParseError,
>)
    ensures
        (match finish_alts(dview_seq(alts@), saw_marker) {
            Ok(v) => r matches Ok(d) && (*d).dview() == v,
            Err(e) => r matches Err(e2) && e2 == e,
        }),
{
    proof {
        crate::definition::lemma_dview_seq_len(alts@);
    }
    let mut alts = alts;
    if alts.len() == 0 {
        Err(ParseError::EmptyOrMalformedAlternation)
    } else if saw_marker {
        if alts.len() < 2 {
            Err(ParseError::EmptyOrMalformedAlternation)
        } else {
            Ok(Box::new(BnfDefinition::Select(alts)))
        }
    } else if alts.len() == 1 {
        let ghost orig = alts@;
        let only = alts.pop().unwrap();
        proof {
            assert(orig =~= alts@.push(only));
            assert(alts@ =~= Seq::<Box<BnfDefinition>>::empty());
            lemma_dview_seq_empty();
            lemma_dview_seq_push(alts@, only);
            assert(dview_seq(orig)[0] == (*only).dview());
        }
        Ok(only)
    } else {
        Ok(Box::new(BnfDefinition::Select(alts)))
    }
}

} // verus!
