use vstd::prelude::*;
use crate::policy::PolicyModel;
use crate::policy::ElementRule;
use crate::policy::lookup_rule;
use crate::engine::AttrModel;
use crate::engine::EventModel;
use crate::engine::ActionModel;
use crate::engine::decide_model;
use crate::engine::filter_attrs;
use crate::engine::lemma_filter_attrs_pred;
use crate::engine::lemma_filter_attrs_all;
use crate::stream::sanitize_step;
use crate::stream::sanitize_model;
use crate::stream::lemma_sanitize_model_add;

verus! {

/// An event that the policy is content with: a known tag carrying only
/// permitted attribute names, a closing tag of a known tag, any text, or a
/// comment while comments are kept.
pub open spec fn event_allowed(policy: PolicyModel, ev: EventModel) -> bool {
    match ev {
        EventModel::TagOpen { name, attributes, .. } => match lookup_rule(
            policy.allowed,
            name,
        ) {
            Some(rule) => forall|i: int|
                0 <= i < attributes.len() ==> rule.attributes.contains(
                    (#[trigger] attributes[i]).name,
                ),
            None => false,
        },
        EventModel::TagClose { name } => lookup_rule(policy.allowed, name) is Some,
        EventModel::Text { .. } => true,
        EventModel::Comment { .. } => !policy.remove_comments,
    }
}

/// Whatever one event leaves behind is an event the policy is content
/// with.
proof fn lemma_step_allowed(policy: PolicyModel, ev: EventModel)
    ensures
        forall|k: int|
            0 <= k < sanitize_step(policy, ev).len() ==> event_allowed(
                policy,
                #[trigger] sanitize_step(policy, ev)[k],
            ),
{
    let out = sanitize_step(policy, ev);
    match decide_model(policy, ev) {
        ActionModel::Emit => {
            match ev {
                EventModel::TagOpen { name, attributes, .. } => {
                    let rule = lookup_rule(policy.allowed, name)->Some_0;
                    assert(filter_attrs(rule, attributes) == attributes);
                    assert forall|i: int| 0 <= i < attributes.len() implies rule.attributes.contains(
                        (#[trigger] attributes[i]).name,
                    ) by {
                        lemma_filter_attrs_pred(rule, attributes, i);
                    }
                    assert(event_allowed(policy, out[0]));
                },
                _ => {
                    assert(event_allowed(policy, out[0]));
                },
            }
        },
        ActionModel::EmitWithAttributes(kept) => {
            match ev {
                EventModel::TagOpen { name, attributes, .. } => {
                    let rule = lookup_rule(policy.allowed, name)->Some_0;
                    assert(kept == filter_attrs(rule, attributes));
                    assert forall|i: int| 0 <= i < kept.len() implies rule.attributes.contains(
                        (#[trigger] kept[i]).name,
                    ) by {
                        lemma_filter_attrs_pred(rule, attributes, i);
                    }
                    assert(event_allowed(policy, out[0]));
                },
                _ => {},
            }
        },
        ActionModel::Suppress => {},
        ActionModel::Drop => {},
    }
}

/// Everything a pass leaves behind is an event the policy is content with:
/// only allowlisted tags, only permitted attribute names on them, and no
/// comments while comments are removed.
pub proof fn lemma_sanitize_allowed(policy: PolicyModel, evs: Seq<EventModel>)
    ensures
        forall|k: int|
            0 <= k < sanitize_model(policy, evs).len() ==> event_allowed(
                policy,
                #[trigger] sanitize_model(policy, evs)[k],
            ),
    decreases evs.len(),
{
    if evs.len() > 0 {
        let step = sanitize_step(policy, evs[0]);
        let rest = sanitize_model(policy, evs.drop_first());
        lemma_step_allowed(policy, evs[0]);
        lemma_sanitize_allowed(policy, evs.drop_first());
        assert forall|k: int|
            0 <= k < sanitize_model(policy, evs).len() implies event_allowed(
            policy,
            sanitize_model(policy, evs)[k],
        ) by {
            if k < step.len() {
                assert(sanitize_model(policy, evs)[k] == step[k]);
            } else {
                assert(sanitize_model(policy, evs)[k] == rest[k - step.len()]);
            }
        }
    }
}

/// Allowlist closure: no tag absent from the allowlist ever appears in the
/// output of a pass, whether opening or closing.
pub proof fn lemma_allowlist_closure(policy: PolicyModel, evs: Seq<EventModel>, k: int)
    requires
        0 <= k < sanitize_model(policy, evs).len(),
    ensures
        sanitize_model(policy, evs)[k] matches EventModel::TagOpen { name, .. } ==> lookup_rule(
            policy.allowed,
            name,
        ) is Some,
        sanitize_model(policy, evs)[k] matches EventModel::TagClose { name } ==> lookup_rule(
            policy.allowed,
            name,
        ) is Some,
{
    lemma_sanitize_allowed(policy, evs);
}

/// Attribute closure: every attribute surviving on a tag in the output of
/// a pass is permitted for that tag by the policy.
pub proof fn lemma_attribute_closure(policy: PolicyModel, evs: Seq<EventModel>, k: int)
    requires
        0 <= k < sanitize_model(policy, evs).len(),
    ensures
        sanitize_model(policy, evs)[k] matches EventModel::TagOpen {
            name,
            attributes,
            ..
        } ==> lookup_rule(policy.allowed, name) matches Some(rule) && forall|j: int|
            0 <= j < attributes.len() ==> rule.attributes.contains(
                (#[trigger] attributes[j]).name,
            ),
{
    lemma_sanitize_allowed(policy, evs);
}

/// Comment removal: while `remove_comments` is set, no comment survives a
/// pass.
pub proof fn lemma_comments_removed(policy: PolicyModel, evs: Seq<EventModel>, k: int)
    requires
        policy.remove_comments,
        0 <= k < sanitize_model(policy, evs).len(),
    ensures
        !(sanitize_model(policy, evs)[k] is Comment),
{
    lemma_sanitize_allowed(policy, evs);
}

/// The text events of a stream, in order.
pub open spec fn texts_of(evs: Seq<EventModel>) -> Seq<EventModel> {
    evs.filter(|e: EventModel| e is Text)
}

/// The comment events of a stream, in order.
pub open spec fn comments_of(evs: Seq<EventModel>) -> Seq<EventModel> {
    evs.filter(|e: EventModel| e is Comment)
}

proof fn lemma_texts_of_single(ev: EventModel)
    ensures
        texts_of(seq![ev]) == if ev is Text {
            seq![ev]
        } else {
            Seq::<EventModel>::empty()
        },
{
    reveal(Seq::filter);
    assert(seq![ev].drop_last() =~= Seq::<EventModel>::empty());
    assert(texts_of(Seq::<EventModel>::empty()) =~= Seq::<EventModel>::empty());
    if ev is Text {
        assert(texts_of(seq![ev]) =~= seq![ev]);
    } else {
        assert(texts_of(seq![ev]) =~= Seq::<EventModel>::empty());
    }
}

proof fn lemma_texts_of_add(a: Seq<EventModel>, b: Seq<EventModel>)
    ensures
        texts_of(a + b) == texts_of(a) + texts_of(b),
{
    broadcast use Seq::filter_distributes_over_add;

}

proof fn lemma_comments_of_single(ev: EventModel)
    ensures
        comments_of(seq![ev]) == if ev is Comment {
            seq![ev]
        } else {
            Seq::<EventModel>::empty()
        },
{
    reveal(Seq::filter);
    assert(seq![ev].drop_last() =~= Seq::<EventModel>::empty());
    assert(comments_of(Seq::<EventModel>::empty()) =~= Seq::<EventModel>::empty());
    if ev is Comment {
        assert(comments_of(seq![ev]) =~= seq![ev]);
    } else {
        assert(comments_of(seq![ev]) =~= Seq::<EventModel>::empty());
    }
}

proof fn lemma_comments_of_add(a: Seq<EventModel>, b: Seq<EventModel>)
    ensures
        comments_of(a + b) == comments_of(a) + comments_of(b),
{
    broadcast use Seq::filter_distributes_over_add;

}

/// One event's leavings, seen through `texts_of`: text events pass, and
/// nothing else contributes text.
proof fn lemma_step_texts(policy: PolicyModel, ev: EventModel)
    ensures
        texts_of(sanitize_step(policy, ev)) == texts_of(seq![ev]),
{
    lemma_texts_of_single(ev);
    match decide_model(policy, ev) {
        ActionModel::Emit => {},
        ActionModel::EmitWithAttributes(kept) => {
            match ev {
                EventModel::TagOpen { name, attributes: _, self_closing } => {
                    lemma_texts_of_single(
                        EventModel::TagOpen { name, attributes: kept, self_closing },
                    );
                },
                _ => {
                    lemma_texts_of_single(ev);
                },
            }
        },
        ActionModel::Suppress => {
            reveal(Seq::filter);
            assert(texts_of(Seq::<EventModel>::empty()) =~= Seq::<EventModel>::empty());
        },
        ActionModel::Drop => {
            reveal(Seq::filter);
            assert(texts_of(Seq::<EventModel>::empty()) =~= Seq::<EventModel>::empty());
        },
    }
}

/// Content preservation under unwrap: a pass never loses text; the text
/// events of the output are exactly the text events of the input, in
/// order, byte for byte.  Suppressing a disallowed element keeps all of
/// its textual content in place.
pub proof fn lemma_text_preserved(policy: PolicyModel, evs: Seq<EventModel>)
    ensures
        texts_of(sanitize_model(policy, evs)) == texts_of(evs),
    decreases evs.len(),
{
    if evs.len() == 0 {
        reveal(Seq::filter);
        assert(texts_of(sanitize_model(policy, evs)) =~= texts_of(evs));
    } else {
        lemma_step_texts(policy, evs[0]);
        lemma_text_preserved(policy, evs.drop_first());
        lemma_texts_of_add(sanitize_step(policy, evs[0]), sanitize_model(policy, evs.drop_first()));
        lemma_texts_of_add(seq![evs[0]], evs.drop_first());
        assert(seq![evs[0]] + evs.drop_first() =~= evs);
    }
}

/// One event's leavings, seen through `comments_of`, while comments are
/// kept.
proof fn lemma_step_comments(policy: PolicyModel, ev: EventModel)
    requires
        !policy.remove_comments,
    ensures
        comments_of(sanitize_step(policy, ev)) == comments_of(seq![ev]),
{
    lemma_comments_of_single(ev);
    match decide_model(policy, ev) {
        ActionModel::Emit => {},
        ActionModel::EmitWithAttributes(kept) => {
            match ev {
                EventModel::TagOpen { name, attributes: _, self_closing } => {
                    lemma_comments_of_single(
                        EventModel::TagOpen { name, attributes: kept, self_closing },
                    );
                },
                _ => {
                    lemma_comments_of_single(ev);
                },
            }
        },
        ActionModel::Suppress => {
            reveal(Seq::filter);
            assert(comments_of(Seq::<EventModel>::empty()) =~= Seq::<EventModel>::empty());
        },
        ActionModel::Drop => {
            reveal(Seq::filter);
            assert(comments_of(Seq::<EventModel>::empty()) =~= Seq::<EventModel>::empty());
        },
    }
}

/// Comment preservation: while `remove_comments` is unset, the comments of
/// the output are exactly the comments of the input, in order, byte for
/// byte.
pub proof fn lemma_comments_preserved(policy: PolicyModel, evs: Seq<EventModel>)
    requires
        !policy.remove_comments,
    ensures
        comments_of(sanitize_model(policy, evs)) == comments_of(evs),
    decreases evs.len(),
{
    if evs.len() == 0 {
        reveal(Seq::filter);
        assert(comments_of(sanitize_model(policy, evs)) =~= comments_of(evs));
    } else {
        lemma_step_comments(policy, evs[0]);
        lemma_comments_preserved(policy, evs.drop_first());
        lemma_comments_of_add(
            sanitize_step(policy, evs[0]),
            sanitize_model(policy, evs.drop_first()),
        );
        lemma_comments_of_add(seq![evs[0]], evs.drop_first());
        assert(seq![evs[0]] + evs.drop_first() =~= evs);
    }
}

/// What one pass leaves of a single event, a second pass leaves alone.
proof fn lemma_step_idempotent(policy: PolicyModel, ev: EventModel)
    ensures
        sanitize_model(policy, sanitize_step(policy, ev)) == sanitize_step(policy, ev),
{
    let step = sanitize_step(policy, ev);
    match decide_model(policy, ev) {
        ActionModel::Emit => {
            assert(step =~= seq![ev]);
            assert(decide_model(policy, ev) == ActionModel::Emit);
            assert(sanitize_model(policy, step) == sanitize_step(policy, ev) + sanitize_model(
                policy,
                step.drop_first(),
            ));
            assert(step.drop_first() =~= Seq::<EventModel>::empty());
            assert(sanitize_model(policy, step) =~= step);
        },
        ActionModel::EmitWithAttributes(kept) => {
            match ev {
                EventModel::TagOpen { name, attributes, self_closing } => {
                    let rule = lookup_rule(policy.allowed, name)->Some_0;
                    assert(kept == filter_attrs(rule, attributes));
                    let survivor = EventModel::TagOpen { name, attributes: kept, self_closing };
                    assert(step =~= seq![survivor]);
                    assert forall|i: int| 0 <= i < kept.len() implies rule.attributes.contains(
                        (#[trigger] kept[i]).name,
                    ) by {
                        lemma_filter_attrs_pred(rule, attributes, i);
                    }
                    lemma_filter_attrs_all(rule, kept);
                    assert(decide_model(policy, survivor) == ActionModel::Emit);
                    assert(sanitize_model(policy, step) == sanitize_step(policy, survivor)
                        + sanitize_model(policy, step.drop_first()));
                    assert(step.drop_first() =~= Seq::<EventModel>::empty());
                    assert(sanitize_model(policy, step) =~= step);
                },
                _ => {},
            }
        },
        ActionModel::Suppress => {
            assert(step =~= Seq::<EventModel>::empty());
        },
        ActionModel::Drop => {
            assert(step =~= Seq::<EventModel>::empty());
        },
    }
}

/// Idempotence: a second pass over the leavings of a first finds nothing
/// left to remove; sanitizing is a projection.
pub proof fn lemma_sanitize_idempotent(policy: PolicyModel, evs: Seq<EventModel>)
    ensures
        sanitize_model(policy, sanitize_model(policy, evs)) == sanitize_model(policy, evs),
    decreases evs.len(),
{
    if evs.len() > 0 {
        let step = sanitize_step(policy, evs[0]);
        let rest = sanitize_model(policy, evs.drop_first());
        lemma_sanitize_model_add(policy, step, rest);
        lemma_step_idempotent(policy, evs[0]);
        lemma_sanitize_idempotent(policy, evs.drop_first());
    }
}

/// A strictly increasing index map embedding `sub` into `s`: the witness
/// that `sub` keeps elements of `s` in their original relative order.
pub open spec fn subsequence_map<A>(m: Seq<int>, sub: Seq<A>, s: Seq<A>) -> bool {
    &&& m.len() == sub.len()
    &&& forall|i: int| 0 <= i < m.len() ==> 0 <= #[trigger] m[i] < s.len()
    &&& forall|i: int| 0 <= i < m.len() ==> sub[i] == s[#[trigger] m[i]]
    &&& forall|i: int, j: int| 0 <= i < j < m.len() ==> #[trigger] m[i] < #[trigger] m[j]
}

/// Whether `sub` appears inside `s` in order.
pub open spec fn is_subsequence_of<A>(sub: Seq<A>, s: Seq<A>) -> bool {
    exists|m: Seq<int>| subsequence_map(m, sub, s)
}

proof fn lemma_filter_subsequence<A>(s: Seq<A>, pred: spec_fn(A) -> bool)
    ensures
        is_subsequence_of(s.filter(pred), s),
    decreases s.len(),
{
    reveal(Seq::filter);
    if s.len() == 0 {
        let m = Seq::<int>::empty();
        assert(subsequence_map(m, s.filter(pred), s));
    } else {
        let s0 = s.drop_last();
        lemma_filter_subsequence(s0, pred);
        let m0 = choose|m0: Seq<int>| subsequence_map(m0, s0.filter(pred), s0);
        if pred(s.last()) {
            let m = m0.push(s0.len() as int);
            assert(subsequence_map(m, s.filter(pred), s)) by {
                assert forall|i: int| 0 <= i < m.len() implies 0 <= #[trigger] m[i] < s.len()
                    && s.filter(pred)[i] == s[m[i]] by {
                    if i < m0.len() {
                        assert(m[i] == m0[i]);
                        assert(s0[m0[i]] == s[m0[i]]);
                    } else {
                        assert(m[i] == s0.len() as int);
                    }
                }
                assert forall|i: int, j: int| 0 <= i < j < m.len() implies #[trigger] m[i]
                    < #[trigger] m[j] by {
                    if j < m0.len() {
                        assert(m[i] == m0[i] && m[j] == m0[j]);
                    } else {
                        assert(m[j] == s0.len() as int);
                        if i < m0.len() {
                            assert(m[i] == m0[i]);
                        }
                    }
                }
            }
        } else {
            assert(subsequence_map(m0, s.filter(pred), s)) by {
                assert forall|i: int| 0 <= i < m0.len() implies 0 <= #[trigger] m0[i] < s.len()
                    && s.filter(pred)[i] == s[m0[i]] by {
                    assert(s0[m0[i]] == s[m0[i]]);
                }
            }
        }
    }
}

/// Attribute order preservation: the attributes a rule lets through stand
/// in the output in their original relative order, values untouched.
pub proof fn lemma_attribute_order_preserved(rule: ElementRule, attrs: Seq<AttrModel>)
    ensures
        is_subsequence_of(filter_attrs(rule, attrs), attrs),
{
    lemma_filter_subsequence(attrs, |a: AttrModel| rule.attributes.contains(a.name));
}

} // verus!
