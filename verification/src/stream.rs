use vstd::prelude::*;
use crate::policy::Settings;
use crate::policy::PolicyModel;
use crate::engine::Attr;
use crate::engine::Event;
use crate::engine::EventModel;
use crate::engine::Action;
use crate::engine::ActionModel;
use crate::engine::events_model;
use crate::engine::decide;
use crate::engine::decide_model;

verus! {

/// What one action writes out for one event: the event verbatim, the tag
/// with a filtered attribute list, or nothing.
pub open spec fn apply_action_model(ev: EventModel, a: ActionModel) -> Seq<EventModel> {
    match a {
        ActionModel::Emit => seq![ev],
        ActionModel::EmitWithAttributes(kept) => match ev {
            EventModel::TagOpen { name, attributes: _, self_closing } => seq![
                EventModel::TagOpen { name, attributes: kept, self_closing },
            ],
            _ => seq![ev],
        },
        ActionModel::Suppress => Seq::empty(),
        ActionModel::Drop => Seq::empty(),
    }
}

/// What survives of one event under one policy.
pub open spec fn sanitize_step(policy: PolicyModel, ev: EventModel) -> Seq<EventModel> {
    apply_action_model(ev, decide_model(policy, ev))
}

/// What survives of a whole event stream under one policy: one forward
/// pass, each event resolved on its own.
pub open spec fn sanitize_model(policy: PolicyModel, evs: Seq<EventModel>) -> Seq<EventModel>
    decreases evs.len(),
{
    if evs.len() == 0 {
        Seq::empty()
    } else {
        sanitize_step(policy, evs[0]) + sanitize_model(policy, evs.drop_first())
    }
}

/// The pass distributes over concatenation of event streams.
pub proof fn lemma_sanitize_model_add(policy: PolicyModel, a: Seq<EventModel>, b: Seq<EventModel>)
    ensures
        sanitize_model(policy, a + b) == sanitize_model(policy, a) + sanitize_model(policy, b),
    decreases a.len(),
{
    if a.len() == 0 {
        assert(a + b =~= b);
        assert(sanitize_model(policy, a) + sanitize_model(policy, b) =~= sanitize_model(
            policy,
            b,
        ));
    } else {
        assert((a + b).drop_first() =~= a.drop_first() + b);
        lemma_sanitize_model_add(policy, a.drop_first(), b);
        assert(sanitize_step(policy, (a + b)[0]) + (sanitize_model(policy, a.drop_first())
            + sanitize_model(policy, b)) =~= (sanitize_step(policy, a[0]) + sanitize_model(
            policy,
            a.drop_first(),
        )) + sanitize_model(policy, b));
    }
}

/// The pass over a prefix, extended by one event.
pub proof fn lemma_sanitize_model_take_step(policy: PolicyModel, evs: Seq<EventModel>, i: int)
    requires
        0 <= i < evs.len(),
    ensures
        sanitize_model(policy, evs.take(i + 1)) == sanitize_model(policy, evs.take(i))
            + sanitize_step(policy, evs[i]),
{
    let single = seq![evs[i]];
    assert(evs.take(i + 1) =~= evs.take(i) + single);
    lemma_sanitize_model_add(policy, evs.take(i), single);
    assert(single.drop_first() =~= Seq::<EventModel>::empty());
    assert(sanitize_model(policy, single) == sanitize_step(policy, single[0]) + sanitize_model(
        policy,
        single.drop_first(),
    ));
    assert(single[0] == evs[i]);
    assert(sanitize_step(policy, evs[i]) + Seq::<EventModel>::empty() =~= sanitize_step(
        policy,
        evs[i],
    ));
}

/// A copy of an attribute list, equal to the original value for value.
pub fn clone_attrs(attrs: &Vec<Attr>) -> (r: Vec<Attr>)
    ensures
        r@ == attrs@,
{
    let mut r: Vec<Attr> = Vec::new();
    let mut i: usize = 0;
    while i < attrs.len()
        invariant
            i <= attrs.len(),
            r@ == attrs@.take(i as int),
        decreases attrs.len() - i,
    {
        r.push(Attr { name: attrs[i].name.clone(), value: attrs[i].value.clone() });
        proof {
            assert(r@ =~= attrs@.take(i + 1));
        }
        i += 1;
    }
    proof {
        assert(attrs@.take(attrs@.len() as int) =~= attrs@);
    }
    r
}

/// A copy of an event, equal to the original value for value.
pub fn clone_event(event: &Event) -> (r: Event)
    ensures
        r@ == event@,
{
    match event {
        Event::TagOpen { name, attributes, self_closing } => Event::TagOpen {
            name: name.clone(),
            attributes: clone_attrs(attributes),
            self_closing: *self_closing,
        },
        Event::TagClose { name } => Event::TagClose { name: name.clone() },
        Event::Text { content } => Event::Text { content: content.clone() },
        Event::Comment { content } => Event::Comment { content: content.clone() },
    }
}

/// One forward pass over a synthetic event stream: each event is decided
/// on its own and the resulting action applied; nothing is buffered and no
/// event is revisited.
pub fn sanitize_events(settings: &Settings, events: &Vec<Event>) -> (out: Vec<Event>)
    ensures
        events_model(out@) == sanitize_model(settings@, events_model(events@)),
{
    let ghost all = events_model(events@);
    let mut out: Vec<Event> = Vec::new();
    let mut i: usize = 0;
    proof {
        assert(events_model(out@) =~= sanitize_model(settings@, all.take(0)));
    }
    while i < events.len()
        invariant
            i <= events.len(),
            all == events_model(events@),
            events_model(out@) == sanitize_model(settings@, all.take(i as int)),
        decreases events.len() - i,
    {
        proof {
            lemma_sanitize_model_take_step(settings@, all, i as int);
            assert(all[i as int] == events@[i as int]@);
        }
        let event = &events[i];
        match decide(settings, event) {
            Action::Emit => {
                let copy = clone_event(event);
                out.push(copy);
                proof {
                    assert(events_model(out@) =~= sanitize_model(
                        settings@,
                        all.take(i as int),
                    ).push(event@));
                    assert(sanitize_step(settings@, all[i as int]) =~= seq![event@]);
                    assert(sanitize_model(settings@, all.take(i as int)) + seq![event@]
                        =~= sanitize_model(settings@, all.take(i as int)).push(event@));
                }
            },
            Action::EmitWithAttributes(kept) => {
                match event {
                    Event::TagOpen { name, attributes: _, self_closing } => {
                        let survivor = Event::TagOpen {
                            name: name.clone(),
                            attributes: kept,
                            self_closing: *self_closing,
                        };
                        proof {
                            assert(sanitize_step(settings@, all[i as int]) =~= seq![survivor@]);
                        }
                        out.push(survivor);
                        proof {
                            assert(events_model(out@) =~= sanitize_model(
                                settings@,
                                all.take(i as int),
                            ) + sanitize_step(settings@, all[i as int]));
                        }
                    },
                    _ => {
                        proof {
                            assert(false);
                        }
                    },
                }
            },
            Action::Suppress => {
                proof {
                    assert(sanitize_model(settings@, all.take(i as int)) + Seq::<
                        EventModel,
                    >::empty() =~= sanitize_model(settings@, all.take(i as int)));
                }
            },
            Action::Drop => {
                proof {
                    assert(sanitize_model(settings@, all.take(i as int)) + Seq::<
                        EventModel,
                    >::empty() =~= sanitize_model(settings@, all.take(i as int)));
                }
            },
        }
        i += 1;
    }
    proof {
        assert(all.take(events@.len() as int) =~= all);
    }
    out
}

} // verus!
