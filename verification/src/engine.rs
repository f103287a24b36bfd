use vstd::prelude::*;
use crate::policy::ElementRule;
use crate::policy::PolicyModel;
use crate::policy::Settings;
use crate::policy::AllowedElement;
use crate::policy::lookup_rule;

verus! {

/// Model of one attribute: its (lowercase) name and its raw value.
#[verifier::ext_equal]
pub struct AttrModel {
    pub name: Seq<char>,
    pub value: Seq<char>,
}

/// One attribute of a tag: name and value, both as the tokenizer handed
/// them over.
#[derive(Debug, PartialEq, Eq)]
pub struct Attr {
    pub name: String,
    pub value: String,
}

impl View for Attr {
    type V = AttrModel;

    open spec fn view(&self) -> AttrModel {
        AttrModel { name: self.name@, value: self.value@ }
    }
}

/// The models of a sequence of attributes.
pub open spec fn attrs_model(s: Seq<Attr>) -> Seq<AttrModel> {
    s.map_values(|a: Attr| a@)
}

/// Model of one structural event of the token stream.
#[verifier::ext_equal]
pub enum EventModel {
    TagOpen { name: Seq<char>, attributes: Seq<AttrModel>, self_closing: bool },
    TagClose { name: Seq<char> },
    Text { content: Seq<char> },
    Comment { content: Seq<char> },
}

/// One structural event, as an external tokenizer would produce it: a tag
/// opening (with its ordered attribute list), a tag closing, a text run, or
/// a comment.  Tag and attribute names are expected lowercase, as streaming
/// tokenizers normalize them.
#[derive(Debug, PartialEq, Eq)]
pub enum Event {
    TagOpen { name: String, attributes: Vec<Attr>, self_closing: bool },
    TagClose { name: String },
    Text { content: String },
    Comment { content: String },
}

impl View for Event {
    type V = EventModel;

    open spec fn view(&self) -> EventModel {
        match self {
            Event::TagOpen { name, attributes, self_closing } => EventModel::TagOpen {
                name: name@,
                attributes: attrs_model(attributes@),
                self_closing: *self_closing,
            },
            Event::TagClose { name } => EventModel::TagClose { name: name@ },
            Event::Text { content } => EventModel::Text { content: content@ },
            Event::Comment { content } => EventModel::Comment { content: content@ },
        }
    }
}

/// The models of a sequence of events.
pub open spec fn events_model(s: Seq<Event>) -> Seq<EventModel> {
    s.map_values(|e: Event| e@)
}

/// Model of the engine's verdict on one event.
#[verifier::ext_equal]
pub enum ActionModel {
    /// Write the event out unchanged.
    Emit,
    /// Write the tag out with this filtered attribute list.
    EmitWithAttributes(Seq<AttrModel>),
    /// Drop the tag markers but keep the element's content in place.
    Suppress,
    /// Remove the node entirely (comments under `remove_comments`).
    Drop,
}

/// The engine's verdict on one event.
#[derive(Debug, PartialEq, Eq)]
pub enum Action {
    Emit,
    EmitWithAttributes(Vec<Attr>),
    Suppress,
    Drop,
}

impl View for Action {
    type V = ActionModel;

    open spec fn view(&self) -> ActionModel {
        match self {
            Action::Emit => ActionModel::Emit,
            Action::EmitWithAttributes(kept) => ActionModel::EmitWithAttributes(
                attrs_model(kept@),
            ),
            Action::Suppress => ActionModel::Suppress,
            Action::Drop => ActionModel::Drop,
        }
    }
}

/// The attributes of `attrs` whose names the rule permits, kept in their
/// original relative order with their original values.
pub open spec fn filter_attrs(rule: ElementRule, attrs: Seq<AttrModel>) -> Seq<AttrModel> {
    attrs.filter(|a: AttrModel| rule.attributes.contains(a.name))
}

/// The decision for one event under one policy: a pure, per-event
/// classification with no cross-event state.
pub open spec fn decide_model(policy: PolicyModel, ev: EventModel) -> ActionModel {
    match ev {
        EventModel::TagOpen { name, attributes, .. } => match lookup_rule(
            policy.allowed,
            name,
        ) {
            Some(rule) => {
                let kept = filter_attrs(rule, attributes);
                if kept == attributes {
                    ActionModel::Emit
                } else {
                    ActionModel::EmitWithAttributes(kept)
                }
            },
            None => ActionModel::Suppress,
        },
        EventModel::TagClose { name } => match lookup_rule(policy.allowed, name) {
            Some(_) => ActionModel::Emit,
            None => ActionModel::Suppress,
        },
        EventModel::Text { .. } => ActionModel::Emit,
        EventModel::Comment { .. } => if policy.remove_comments {
            ActionModel::Drop
        } else {
            ActionModel::Emit
        },
    }
}

/// Filtering a prefix one element further keeps or drops exactly that
/// element.
pub proof fn lemma_filter_take_step<A>(s: Seq<A>, pred: spec_fn(A) -> bool, i: int)
    requires
        0 <= i < s.len(),
    ensures
        s.take(i + 1).filter(pred) == if pred(s[i]) {
            s.take(i).filter(pred).push(s[i])
        } else {
            s.take(i).filter(pred)
        },
{
    reveal(Seq::filter);
    assert(s.take(i + 1).drop_last() =~= s.take(i));
    assert(s.take(i + 1).last() == s[i]);
}

/// A filter that keeps the full length keeps the whole sequence.
proof fn lemma_filter_full<A>(s: Seq<A>, pred: spec_fn(A) -> bool)
    requires
        s.filter(pred).len() == s.len(),
    ensures
        s.filter(pred) == s,
    decreases s.len(),
{
    broadcast use Seq::lemma_filter_len;

    reveal(Seq::filter);
    if s.len() > 0 {
        lemma_filter_full(s.drop_last(), pred);
        assert(s.filter(pred) =~= s);
    } else {
        assert(s.filter(pred) =~= s);
    }
}

/// A sequence all of whose elements satisfy the predicate is kept whole.
proof fn lemma_filter_all<A>(s: Seq<A>, pred: spec_fn(A) -> bool)
    requires
        forall|i: int| 0 <= i < s.len() ==> pred(#[trigger] s[i]),
    ensures
        s.filter(pred) == s,
    decreases s.len(),
{
    reveal(Seq::filter);
    if s.len() > 0 {
        lemma_filter_all(s.drop_last(), pred);
        assert(s.filter(pred) =~= s);
    } else {
        assert(s.filter(pred) =~= s);
    }
}

/// `filter_attrs` over a prefix, extended by one attribute.
pub proof fn lemma_filter_attrs_take_step(rule: ElementRule, attrs: Seq<AttrModel>, i: int)
    requires
        0 <= i < attrs.len(),
    ensures
        filter_attrs(rule, attrs.take(i + 1)) == if rule.attributes.contains(attrs[i].name) {
            filter_attrs(rule, attrs.take(i)).push(attrs[i])
        } else {
            filter_attrs(rule, attrs.take(i))
        },
{
    lemma_filter_take_step(attrs, |a: AttrModel| rule.attributes.contains(a.name), i);
}

/// A filtered attribute list of the original's length is the original.
pub proof fn lemma_filter_attrs_full(rule: ElementRule, attrs: Seq<AttrModel>)
    requires
        filter_attrs(rule, attrs).len() == attrs.len(),
    ensures
        filter_attrs(rule, attrs) == attrs,
{
    lemma_filter_full(attrs, |a: AttrModel| rule.attributes.contains(a.name));
}

/// An attribute list the rule permits entirely is kept whole by the filter.
pub proof fn lemma_filter_attrs_all(rule: ElementRule, attrs: Seq<AttrModel>)
    requires
        forall|i: int|
            0 <= i < attrs.len() ==> rule.attributes.contains((#[trigger] attrs[i]).name),
    ensures
        filter_attrs(rule, attrs) == attrs,
{
    lemma_filter_all(attrs, |a: AttrModel| rule.attributes.contains(a.name));
}

/// Every attribute the filter keeps is one the rule permits.
pub proof fn lemma_filter_attrs_pred(rule: ElementRule, attrs: Seq<AttrModel>, i: int)
    requires
        0 <= i < filter_attrs(rule, attrs).len(),
    ensures
        rule.attributes.contains(filter_attrs(rule, attrs)[i].name),
{
    broadcast use Seq::lemma_filter_pred;

    assert(filter_attrs(rule, attrs) == attrs.filter(
        |a: AttrModel| rule.attributes.contains(a.name),
    ));
}

/// The attributes of `attrs` that `rule` permits, in their original order
/// and with their original values.
pub fn filter_attributes(rule: &AllowedElement, attrs: &Vec<Attr>) -> (r: Vec<Attr>)
    ensures
        attrs_model(r@) == filter_attrs(rule@, attrs_model(attrs@)),
{
    let ghost all = attrs_model(attrs@);
    let mut r: Vec<Attr> = Vec::new();
    let mut i: usize = 0;
    proof {
        assert(attrs_model(r@) =~= filter_attrs(rule@, all.take(0)));
    }
    while i < attrs.len()
        invariant
            i <= attrs.len(),
            all == attrs_model(attrs@),
            attrs_model(r@) == filter_attrs(rule@, all.take(i as int)),
        decreases attrs.len() - i,
    {
        proof {
            lemma_filter_attrs_take_step(rule@, all, i as int);
            assert(all[i as int] == attrs@[i as int]@);
        }
        if rule.is_attribute_allowed(&attrs[i].name) {
            let kept = Attr { name: attrs[i].name.clone(), value: attrs[i].value.clone() };
            proof {
                assert(kept@ == attrs@[i as int]@);
            }
            r.push(kept);
            proof {
                assert(attrs_model(r@) =~= filter_attrs(rule@, all.take(i as int)).push(
                    all[i as int],
                ));
            }
        }
        i += 1;
    }
    proof {
        assert(all.take(attrs@.len() as int) =~= all);
    }
    r
}

/// Classify one event into exactly one action, per the policy: unknown
/// tags are suppressed (unwrapped, their content left in place), known
/// tags keep exactly their permitted attributes, text passes through, and
/// comments follow the comment flag.
pub fn decide(settings: &Settings, event: &Event) -> (a: Action)
    ensures
        a@ == decide_model(settings@, event@),
{
    match event {
        Event::TagOpen { name, attributes, .. } => {
            match settings.lookup(name) {
                Some(i) => {
                    proof {
                        assert(settings.allowed@[i as int]@ == settings@.allowed[i as int]);
                    }
                    let kept = filter_attributes(&settings.allowed[i], attributes);
                    if kept.len() == attributes.len() {
                        proof {
                            assert(attrs_model(kept@).len() == kept@.len());
                            assert(attrs_model(attributes@).len() == attributes@.len());
                            lemma_filter_attrs_full(
                                settings@.allowed[i as int],
                                attrs_model(attributes@),
                            );
                        }
                        Action::Emit
                    } else {
                        proof {
                            assert(attrs_model(kept@).len() == kept@.len());
                            assert(attrs_model(attributes@).len() == attributes@.len());
                            assert(attrs_model(kept@) != attrs_model(attributes@));
                        }
                        Action::EmitWithAttributes(kept)
                    }
                },
                None => Action::Suppress,
            }
        },
        Event::TagClose { name } => {
            match settings.lookup(name) {
                Some(_) => Action::Emit,
                None => Action::Suppress,
            }
        },
        Event::Text { .. } => Action::Emit,
        Event::Comment { .. } => {
            if settings.should_remove_comments() {
                Action::Drop
            } else {
                Action::Emit
            }
        },
    }
}

} // verus!
