//! Delivery of a prepared switch: publication, verification and activation, in
//! this order, each only after the one before it has succeeded.

use vstd::prelude::*;

use crate::error::{outcome, Error, ErrorView, Result};
use crate::request::{SwitchPlan, SwitchView};
use crate::text;

verus! {

/// Number of missing paths that an error names.
pub const PREVIEW_PATHS: usize = 5;

/// What a delivery waits for.
#[derive(Debug, Clone, Copy, PartialEq, Eq, Structural)]
pub enum Stage {
    /// The closure is to be published.
    Publish,
    /// The cache is to be asked for the closure.
    Verify,
    /// The prepared toplevel is to be activated.
    Activate,
    /// Nothing is left to do.
    Delivered,
}

/// A delivery under way.
#[derive(Debug)]
pub struct Delivery {
    stage: Stage,
    activates: bool,
}

/// Model of a [`Delivery`].
#[verifier::ext_equal]
pub struct DeliveryView {
    /// What is waited for.
    pub stage: Stage,
    /// The delivery ends with an activation.
    pub activates: bool,
}

impl View for Delivery {
    type V = DeliveryView;

    closed spec fn view(&self) -> DeliveryView {
        DeliveryView { stage: self.stage, activates: self.activates }
    }
}

/// How a stage of a delivery ended.
#[verifier::ext_equal]
pub enum EventView {
    Published(std::result::Result<(), ErrorView>),
    Verified(std::result::Result<Seq<Seq<char>>, ErrorView>),
    Activated(std::result::Result<(), ErrorView>),
}

/// The error that reports paths that are missing from the cache.
pub open spec fn missing_paths(missing: Seq<Seq<char>>) -> ErrorView {
    let shown = if missing.len() > PREVIEW_PATHS {
        missing.take(PREVIEW_PATHS as int)
    } else {
        missing
    };
    ErrorView::MissingCachePaths {
        count: missing.len() as usize,
        preview: text::joined(shown, ", "@),
    }
}

/// The delivery that a switch begins with. Only a captured closure is published;
/// the `build` action activates nothing.
pub open spec fn delivery_of(plan: SwitchView) -> DeliveryView {
    let activates = plan.action != "build"@;
    let stage = if plan.capture {
        Stage::Publish
    } else if activates {
        Stage::Activate
    } else {
        Stage::Delivered
    };
    DeliveryView { stage, activates }
}

impl DeliveryView {
    /// The event ends the stage that is waited for.
    pub open spec fn expects(self, event: EventView) -> bool {
        match event {
            EventView::Published(_) => self.stage is Publish,
            EventView::Verified(_) => self.stage is Verify,
            EventView::Activated(_) => self.stage is Activate,
        }
    }

    /// What follows from an event: the next stage, or the error that ends the
    /// delivery.
    pub open spec fn after(self, event: EventView) -> std::result::Result<
        DeliveryView,
        ErrorView,
    > {
        match event {
            EventView::Published(Ok(_)) => Ok(DeliveryView { stage: Stage::Verify, ..self }),
            EventView::Published(Err(error)) => Err(error),
            EventView::Verified(Ok(missing)) => if missing.len() > 0 {
                Err(missing_paths(missing))
            } else if self.activates {
                Ok(DeliveryView { stage: Stage::Activate, ..self })
            } else {
                Ok(DeliveryView { stage: Stage::Delivered, ..self })
            },
            EventView::Verified(Err(error)) => Err(error),
            EventView::Activated(Ok(_)) => Ok(DeliveryView { stage: Stage::Delivered, ..self }),
            EventView::Activated(Err(error)) => Err(error),
        }
    }
}

fn missing_paths_error(missing: &[String]) -> (result: Error)
    ensures
        result@ == missing_paths(missing.deep_view()),
{
    let count = missing.len();
    let end: usize = if count > PREVIEW_PATHS {
        PREVIEW_PATHS
    } else {
        count
    };
    let ghost all = missing.deep_view();
    let mut shown: Vec<String> = Vec::new();
    assert(shown.deep_view() =~= all.take(0));
    for i in 0..end
        invariant
            end <= missing.len(),
            all == missing.deep_view(),
            shown.deep_view() == all.take(i as int),
    {
        text::add_item(&mut shown, missing[i].clone());
        assert(all[i as int] == missing@[i as int]@);
        assert(shown.deep_view() =~= all.take(i + 1));
    }
    assert(count <= PREVIEW_PATHS ==> all.take(end as int) =~= all);
    Error::MissingCachePaths { count, preview: text::join(shown.as_slice(), ", ") }
}

impl Delivery {
    /// Begins the delivery of a prepared switch.
    pub fn begin(plan: &SwitchPlan<'_>) -> (result: Self)
        ensures
            result@ == delivery_of(plan@),
    {
        let activates = !text::same(plan.action, "build");
        let stage = if plan.capture {
            Stage::Publish
        } else if activates {
            Stage::Activate
        } else {
            Stage::Delivered
        };
        Delivery { stage, activates }
    }

    /// What the delivery waits for.
    pub fn stage(&self) -> (result: Stage)
        ensures
            result == self@.stage,
    {
        self.stage
    }

    /// Goes on once the closure has been published.
    pub fn published(self, ended: Result<()>) -> (result: Result<Self>)
        requires
            self@.stage is Publish,
        ensures
            match result {
                Ok(next) => self@.after(EventView::Published(outcome(ended))) == Ok::<
                    DeliveryView,
                    ErrorView,
                >(next@),
                Err(error) => ended == Err::<(), Error>(error) && self@.after(
                    EventView::Published(outcome(ended)),
                ) == Err::<DeliveryView, ErrorView>(error@),
            },
    {
        match ended {
            Ok(_) => Ok(Delivery { stage: Stage::Verify, activates: self.activates }),
            Err(error) => Err(error),
        }
    }

    /// Goes on once the cache has said what of the closure it lacks.
    pub fn verified(self, answer: Result<Vec<String>>) -> (result: Result<Self>)
        requires
            self@.stage is Verify,
        ensures
            match result {
                Ok(next) => self@.after(EventView::Verified(outcome(answer))) == Ok::<
                    DeliveryView,
                    ErrorView,
                >(next@),
                Err(error) => self@.after(EventView::Verified(outcome(answer))) == Err::<
                    DeliveryView,
                    ErrorView,
                >(error@) && (answer is Err ==> answer == Err::<Vec<String>, Error>(error)),
            },
    {
        match answer {
            Ok(missing) => {
                if missing.len() > 0 {
                    return Err(missing_paths_error(missing.as_slice()));
                }
                let stage = if self.activates {
                    Stage::Activate
                } else {
                    Stage::Delivered
                };
                Ok(Delivery { stage, activates: self.activates })
            },
            Err(error) => Err(error),
        }
    }

    /// Ends once the prepared toplevel has been activated.
    pub fn activated(self, ended: Result<()>) -> (result: Result<Self>)
        requires
            self@.stage is Activate,
        ensures
            match result {
                Ok(next) => self@.after(EventView::Activated(outcome(ended))) == Ok::<
                    DeliveryView,
                    ErrorView,
                >(next@),
                Err(error) => ended == Err::<(), Error>(error) && self@.after(
                    EventView::Activated(outcome(ended)),
                ) == Err::<DeliveryView, ErrorView>(error@),
            },
    {
        match ended {
            Ok(_) => Ok(Delivery { stage: Stage::Delivered, activates: self.activates }),
            Err(error) => Err(error),
        }
    }
}

// ---------------------------------------------------------------------------
// Laws
// ---------------------------------------------------------------------------

/// Where a delivery stands after some events, each of which it expected and none
/// of which ended it; nowhere when it was not so.
pub open spec fn reached(plan: SwitchView, events: Seq<EventView>) -> Option<DeliveryView>
    decreases events.len(),
{
    if events.len() == 0 {
        Some(delivery_of(plan))
    } else {
        match reached(plan, events.drop_last()) {
            Some(delivery) => if delivery.expects(events.last()) {
                match delivery.after(events.last()) {
                    Ok(next) => Some(next),
                    Err(_) => None,
                }
            } else {
                None
            },
            None => None,
        }
    }
}

/// The events of a closure that was published and that the cache has.
pub open spec fn is_published_and_verified(events: Seq<EventView>) -> bool {
    &&& events.len() == 2
    &&& events[0] == EventView::Published(Ok(()))
    &&& events[1] == EventView::Verified(Ok(Seq::empty()))
}

/// Activation is attempted only when all before it has succeeded: a captured
/// closure was published and nothing of it is missing from the cache. Otherwise
/// activation is the first thing to do. The `build` action never comes to it.
pub proof fn law_activation_comes_last(plan: SwitchView, events: Seq<EventView>)
    ensures
        reached(plan, events) is Some && reached(plan, events)->0.stage is Activate <==> plan.action
            != "build"@ && if plan.capture {
            is_published_and_verified(events)
        } else {
            events.len() == 0
        },
{
    lemma_reached(plan, events);
    if plan.capture && is_published_and_verified(events) {
        let first = events.drop_last();
        assert(first.drop_last() =~= Seq::empty());
        assert(first.last() == events[0]);
        assert(reached(plan, first.drop_last()) == Some(delivery_of(plan)));
        assert(reached(plan, first) is Some);
    }
}

/// A delivery is over only after everything that was asked for has succeeded.
pub proof fn law_delivered_means_all_succeeded(plan: SwitchView, events: Seq<EventView>)
    requires
        reached(plan, events) is Some,
        reached(plan, events)->0.stage is Delivered,
    ensures
        plan.action == "build"@ ==> if plan.capture {
            is_published_and_verified(events)
        } else {
            events.len() == 0
        },
        plan.action != "build"@ ==> events.len() > 0 && events.last() == EventView::Activated(
            Ok(()),
        ) && if plan.capture {
            is_published_and_verified(events.drop_last())
        } else {
            events.len() == 1
        },
{
    lemma_reached(plan, events);
}

proof fn lemma_reached(plan: SwitchView, events: Seq<EventView>)
    ensures
        match reached(plan, events) {
            None => true,
            Some(delivery) => {
                let activates = plan.action != "build"@;
                &&& delivery.activates == activates
                &&& match delivery.stage {
                    Stage::Publish => plan.capture && events.len() == 0,
                    Stage::Verify => plan.capture && events.len() == 1 && events[0]
                        == EventView::Published(Ok(())),
                    Stage::Activate => activates && if plan.capture {
                        is_published_and_verified(events)
                    } else {
                        events.len() == 0
                    },
                    Stage::Delivered => if activates {
                        events.len() > 0 && events.last() == EventView::Activated(Ok(()))
                            && if plan.capture {
                            is_published_and_verified(events.drop_last())
                        } else {
                            events.len() == 1
                        }
                    } else {
                        if plan.capture {
                            is_published_and_verified(events)
                        } else {
                            events.len() == 0
                        }
                    },
                }
            },
        },
    decreases events.len(),
{
    if events.len() > 0 {
        lemma_reached(plan, events.drop_last());
        match events.last() {
            EventView::Published(Ok(done)) => {
                assert(done == ());
            },
            EventView::Activated(Ok(done)) => {
                assert(done == ());
            },
            EventView::Verified(Ok(missing)) => {
                if missing.len() == 0 {
                    assert(missing =~= Seq::empty());
                }
            },
            _ => {},
        }
    }
}

/// Paths that are missing from the cache are counted, all of them, and the first
/// five are named, in order.
pub proof fn law_missing_paths_are_counted_and_named(missing: Seq<Seq<char>>)
    requires
        missing.len() <= usize::MAX,
    ensures
        missing_paths(missing) matches ErrorView::MissingCachePaths { count, preview } && count
            == missing.len() && preview == text::joined(
            if missing.len() <= 5 {
                missing
            } else {
                missing.take(5)
            },
            seq![',', ' '],
        ),
{
    reveal_strlit(", ");
    assert(", "@ =~= seq![',', ' ']);
}

/// A delivery begins with the publication of what was captured, and otherwise
/// with the activation, unless the action is `build`. It goes on to the next
/// stage on success, and ends with the error that it is given.
pub proof fn law_deliveries_go_on_after_success(plan: SwitchView, error: ErrorView)
    ensures
        ({
            let begun = delivery_of(plan);
            &&& begun.activates == (plan.action != "build"@)
            &&& begun.stage == if plan.capture {
                Stage::Publish
            } else if plan.action == "build"@ {
                Stage::Delivered
            } else {
                Stage::Activate
            }
        }),
        forall|delivery: DeliveryView|
            #![trigger delivery.after(EventView::Published(Ok(())))]
            delivery.after(EventView::Published(Ok(()))) == Ok::<DeliveryView, ErrorView>(
                DeliveryView { stage: Stage::Verify, activates: delivery.activates },
            ),
        forall|delivery: DeliveryView|
            #![trigger delivery.after(EventView::Verified(Ok(Seq::empty())))]
            delivery.after(EventView::Verified(Ok(Seq::empty()))) == Ok::<DeliveryView, ErrorView>(
                DeliveryView {
                    stage: if delivery.activates {
                        Stage::Activate
                    } else {
                        Stage::Delivered
                    },
                    activates: delivery.activates,
                },
            ),
        forall|delivery: DeliveryView|
            #![trigger delivery.after(EventView::Activated(Ok(())))]
            delivery.after(EventView::Activated(Ok(()))) == Ok::<DeliveryView, ErrorView>(
                DeliveryView { stage: Stage::Delivered, activates: delivery.activates },
            ),
        forall|delivery: DeliveryView|
            #![trigger delivery.after(EventView::Published(Err(error)))]
            delivery.after(EventView::Published(Err(error))) == Err::<DeliveryView, ErrorView>(
                error,
            ),
        forall|delivery: DeliveryView|
            #![trigger delivery.after(EventView::Verified(Err(error)))]
            delivery.after(EventView::Verified(Err(error))) == Err::<DeliveryView, ErrorView>(
                error,
            ),
        forall|delivery: DeliveryView|
            #![trigger delivery.after(EventView::Activated(Err(error)))]
            delivery.after(EventView::Activated(Err(error))) == Err::<DeliveryView, ErrorView>(
                error,
            ),
        forall|delivery: DeliveryView, missing: Seq<Seq<char>>|
            #![trigger delivery.after(EventView::Verified(Ok(missing)))]
            missing.len() > 0 ==> delivery.after(EventView::Verified(Ok(missing))) == Err::<
                DeliveryView,
                ErrorView,
            >(missing_paths(missing)),
{
}

} // verus!
