//! The event router: hardware input becomes protocol messages to the
//! owning plugin, and inbound protocol messages become store updates and
//! notifications — with identity checks at the inbound boundary.

use vstd::prelude::*;

use crate::broker::{Broker, BrokerV, spec_send, lemma_queue_find};
use crate::errors::{Error, ErrorKind};
use crate::instances::{
    spec_advance, spec_replace_instance_at, spec_update_current_state, spec_update_image,
    spec_update_settings, spec_update_title, spec_with_current_state, spec_with_settings,
    update_instance_image, update_instance_settings, update_instance_state, update_instance_title,
};
use crate::messages::{
    Coordinates, EventName, GenericInstancePayload, InboundEvent, OutboundMessage,
    make_coordinates, spec_coordinates,
};
use crate::profiles::{
    ProfileStores, StoresV, spec_instance_at, spec_set_slot, spec_slot_ctx, spec_slot_of,
};
use crate::registry::{DeviceInfo, DeviceNamespaces, DeviceRegistry, ns_of, spec_device_prefix, device_prefix};
use crate::shared::{
    ActionContext, ActionContextV, ActionInstance, ActionInstanceV, ChildInstance, Context,
    ContextV, Controller, dup_action_context, dup_child_instance, dup_instance,
    child_as_instance, action_context_eq,
};
use crate::text::{str_eq, starts_with_str};

verus! {

/// Sending a batch of addressed messages, one after the other.
pub open spec fn spec_send_seq(
    b: BrokerV<OutboundMessage>,
    ms: Seq<(Seq<char>, OutboundMessage)>,
) -> BrokerV<OutboundMessage>
    decreases ms.len(),
{
    if ms.len() == 0 {
        b
    } else {
        spec_send_seq(spec_send(b, ms[0].0, ms[0].1), ms.drop_first())
    }
}

/// A batch grows at its end: sending it is sending the front batch, then
/// the last message.
pub proof fn lemma_send_seq_snoc(
    b: BrokerV<OutboundMessage>,
    ms: Seq<(Seq<char>, OutboundMessage)>,
    x: (Seq<char>, OutboundMessage),
)
    ensures
        spec_send_seq(b, ms.push(x)) == spec_send(spec_send_seq(b, ms), x.0, x.1),
    decreases ms.len(),
{
    let t = ms.push(x);
    if ms.len() == 0 {
        assert(t[0] == x);
        assert(t.drop_first() =~= Seq::<(Seq<char>, OutboundMessage)>::empty());
        assert(spec_send_seq(spec_send(b, x.0, x.1), t.drop_first()) == spec_send(b, x.0, x.1));
    } else {
        assert(t[0] == ms[0]);
        assert(t.drop_first() =~= ms.drop_first().push(x));
        lemma_send_seq_snoc(spec_send(b, ms[0].0, ms[0].1), ms.drop_first(), x);
    }
}

/// Sending a batch after a batch is sending their concatenation.
pub proof fn lemma_send_seq_concat(
    b: BrokerV<OutboundMessage>,
    ms: Seq<(Seq<char>, OutboundMessage)>,
    ns: Seq<(Seq<char>, OutboundMessage)>,
)
    ensures
        spec_send_seq(b, ms + ns) == spec_send_seq(spec_send_seq(b, ms), ns),
    decreases ns.len(),
{
    if ns.len() == 0 {
        assert(ms + ns =~= ms);
    } else {
        assert(ms + ns =~= (ms + ns.drop_last()).push(ns.last()));
        assert(ns =~= ns.drop_last().push(ns.last()));
        lemma_send_seq_concat(b, ms, ns.drop_last());
        lemma_send_seq_snoc(b, ms + ns.drop_last(), ns.last());
        lemma_send_seq_snoc(spec_send_seq(b, ms), ns.drop_last(), ns.last());
    }
}

/// Sending never changes who is connected.
pub proof fn lemma_send_seq_connected(
    b: BrokerV<OutboundMessage>,
    ms: Seq<(Seq<char>, OutboundMessage)>,
)
    ensures
        spec_send_seq(b, ms).connected == b.connected,
    decreases ms.len(),
{
    if ms.len() > 0 {
        lemma_send_seq_connected(spec_send(b, ms[0].0, ms[0].1), ms.drop_first());
    }
}

/// Of a batch of sends, the ones that reach a live connection, in order:
/// everything whose target is connected.
pub open spec fn connected_sends(
    connected: Seq<Seq<char>>,
    ms: Seq<(Seq<char>, OutboundMessage)>,
) -> Seq<(Seq<char>, OutboundMessage)>
    decreases ms.len(),
{
    if ms.len() == 0 {
        Seq::empty()
    } else {
        connected_sends(connected, ms.drop_last()) + (if connected.contains(ms.last().0) {
            seq![ms.last()]
        } else {
            Seq::empty()
        })
    }
}

/// How one send changes the wire deliveries: a connected target's message
/// is appended for the caller to write; anything else leaves them alone.
pub open spec fn delivered_one(
    d0: Seq<(String, OutboundMessage)>,
    d1: Seq<(String, OutboundMessage)>,
    connected: Seq<Seq<char>>,
    target: Seq<char>,
    m: OutboundMessage,
) -> bool {
    if connected.contains(target) {
        d1.len() == d0.len() + 1 && d1.take(d0.len() as int) == d0 && d1.last().0@ == target
            && d1.last().1 == m
    } else {
        d1 == d0
    }
}

/// How a batch of sends changes the wire deliveries: exactly the messages
/// of connected targets are appended, in send order.
pub open spec fn deliveries_extended(
    d0: Seq<(String, OutboundMessage)>,
    d1: Seq<(String, OutboundMessage)>,
    connected: Seq<Seq<char>>,
    ms: Seq<(Seq<char>, OutboundMessage)>,
) -> bool {
    let want = connected_sends(connected, ms);
    &&& d1.len() == d0.len() + want.len()
    &&& d1.take(d0.len() as int) == d0
    &&& forall|j: int|
        0 <= j < want.len() ==> (#[trigger] d1[d0.len() + j]).0@ == want[j].0 && d1[d0.len()
            + j].1 == want[j].1
}

/// One more send extends the connected deliveries by that send when its
/// target is connected.
pub proof fn lemma_connected_sends_snoc(
    connected: Seq<Seq<char>>,
    ms: Seq<(Seq<char>, OutboundMessage)>,
    x: (Seq<char>, OutboundMessage),
)
    ensures
        connected_sends(connected, ms.push(x)) == connected_sends(connected, ms) + (
        if connected.contains(x.0) {
            seq![x]
        } else {
            Seq::<(Seq<char>, OutboundMessage)>::empty()
        }),
{
    assert(ms.push(x).drop_last() =~= ms);
    assert(ms.push(x).last() == x);
}

/// An empty batch delivers nothing.
pub proof fn lemma_deliveries_extended_empty(
    d: Seq<(String, OutboundMessage)>,
    connected: Seq<Seq<char>>,
)
    ensures
        deliveries_extended(d, d, connected, Seq::empty()),
{
    assert(connected_sends(connected, Seq::<(Seq<char>, OutboundMessage)>::empty())
        =~= Seq::<(Seq<char>, OutboundMessage)>::empty());
    assert(d.take(d.len() as int) =~= d);
}

/// One delivered send on top of an extended batch keeps it extended.
pub proof fn lemma_deliveries_extended_step(
    d0: Seq<(String, OutboundMessage)>,
    d1: Seq<(String, OutboundMessage)>,
    d2: Seq<(String, OutboundMessage)>,
    connected: Seq<Seq<char>>,
    ms: Seq<(Seq<char>, OutboundMessage)>,
    x: (Seq<char>, OutboundMessage),
)
    requires
        deliveries_extended(d0, d1, connected, ms),
        delivered_one(d1, d2, connected, x.0, x.1),
    ensures
        deliveries_extended(d0, d2, connected, ms.push(x)),
{
    lemma_connected_sends_snoc(connected, ms, x);
    let want = connected_sends(connected, ms);
    let want2 = connected_sends(connected, ms.push(x));
    if connected.contains(x.0) {
        assert(want2 =~= want.push(x));
        assert forall|i: int| 0 <= i < d1.len() implies #[trigger] d2[i] == d1[i] by {
            assert(d1[i] == d2.take(d1.len() as int)[i]);
        }
        assert(d2.take(d0.len() as int) =~= d0);
        assert forall|j: int|
            0 <= j < want2.len() implies (#[trigger] d2[d0.len() + j]).0@ == want2[j].0 && d2[
            d0.len() + j].1 == want2[j].1 by {
            if j < want.len() {
                assert(d2[d0.len() + j] == d1[d0.len() + j]);
                assert(want2[j] == want[j]);
            } else {
                assert(d0.len() + j == d2.len() - 1);
                assert(d2[d0.len() + j] == d2.last());
                assert(want2[j] == x);
            }
        }
    } else {
        assert(want2 =~= want);
        assert(d2.take(d0.len() as int) =~= d0);
    }
}

/// Route one message to one identity: queue it, or hand it back paired
/// with its target for the caller to write to the live connection.
pub fn dispatch(
    broker: &mut Broker<OutboundMessage>,
    deliveries: &mut Vec<(String, OutboundMessage)>,
    target: &str,
    m: OutboundMessage,
) -> (gm: Ghost<OutboundMessage>)
    ensures
        gm@ == m,
        final(broker)@ == spec_send(old(broker)@, target@, gm@),
        delivered_one(
            old(deliveries)@,
            final(deliveries)@,
            old(broker)@.connected,
            target@,
            gm@,
        ),
{
    let ghost gm = m;
    match broker.send(target, m) {
        Some(out) => {
            let ghost before = deliveries@;
            deliveries.push((target.to_owned(), out));
            proof {
                assert(deliveries@.take(before.len() as int) =~= before);
            }
        },
        None => {},
    }
    Ghost(gm)
}

/// The generic payload of an instance-addressed event.
pub fn instance_payload(i: &ActionInstance, columns: u8, multi: bool) -> (r:
    GenericInstancePayload)
    ensures
        r.settings@ == i@.settings,
        r.coordinates == spec_coordinates(i.context.controller, i.context.position, columns),
        r.controller == i.context.controller,
        r.state == i.current_state,
        r.is_in_multi_action == multi,
{
    GenericInstancePayload {
        settings: i.settings.clone(),
        coordinates: make_coordinates(i.context.controller, i.context.position, columns),
        controller: i.context.controller,
        state: i.current_state,
        is_in_multi_action: multi,
    }
}

/// Whether an outbound message is the instance-addressed event `ev` for
/// the instance `i`, placed on a grid of the given width.
pub open spec fn is_instance_message(
    m: OutboundMessage,
    ev: EventName,
    i: ActionInstanceV,
    columns: u8,
    multi: bool,
) -> bool {
    &&& m matches OutboundMessage::Instance { event, action, context, device, payload }
    &&& m matches OutboundMessage::Instance { event, .. } && event == ev
    &&& m matches OutboundMessage::Instance { action, .. } && action@ == i.action.uuid
    &&& m matches OutboundMessage::Instance { context, .. } && context@ == i.context
    &&& m matches OutboundMessage::Instance { device, .. } && device@ == i.context.device
    &&& m matches OutboundMessage::Instance { payload, .. } && payload.settings@ == i.settings
        && payload.coordinates == spec_coordinates(
        i.context.controller,
        i.context.position,
        columns,
    ) && payload.controller == i.context.controller && payload.state == i.current_state
        && payload.is_in_multi_action == multi
}

/// Build an instance-addressed event.
pub fn make_instance_message(
    ev: EventName,
    i: &ActionInstance,
    columns: u8,
    multi: bool,
) -> (m: OutboundMessage)
    ensures
        is_instance_message(m, ev, i@, columns, multi),
{
    OutboundMessage::Instance {
        event: ev,
        action: i.action.uuid.clone(),
        context: dup_action_context(&i.context),
        device: i.context.device.clone(),
        payload: instance_payload(i, columns, multi),
    }
}

/// The slot a physical key or dial addresses on the selected profile.
pub open spec fn press_ctx(device_id: Seq<char>, profile: Seq<char>, key: u8) -> ContextV {
    ContextV { device: device_id, profile, controller: Controller::Keypad, position: key }
}

/// A key release: the slot's instance, if any, advances by the automatic
/// state rule and the plugin hears `keyUp` with the advanced state; the
/// caller persists the profile exactly when something was configured
/// there.
pub fn key_up(
    stores: &mut ProfileStores,
    broker: &mut Broker<OutboundMessage>,
    deliveries: &mut Vec<(String, OutboundMessage)>,
    device: &DeviceInfo,
    profile: &str,
    key: u8,
) -> (r: (Result<bool, Error>, Ghost<OutboundMessage>))
    ensures
        ({
            let ctx = ContextV {
                device: device.id@,
                profile: profile@,
                controller: Controller::Keypad,
                position: key,
            };
            match spec_slot_of(old(stores)@, ctx) {
                None => r.0 is Err && final(stores)@ == old(stores)@ && final(broker)@ == old(broker)@ && final(deliveries)@ == old(deliveries)@,
                Some(None) => r.0 == Ok::<bool, Error>(false) && final(stores)@ == old(stores)@
                    && final(broker)@ == old(broker)@ && final(deliveries)@ == old(deliveries)@,
                Some(Some(i)) => {
                    let adv = spec_advance(i);
                    &&& r.0 == Ok::<bool, Error>(true)
                    &&& final(stores)@ == spec_set_slot(old(stores)@, ctx, Some(adv))
                    &&& is_instance_message(r.1@, EventName::KeyUp, adv, device.columns, false)
                    &&& final(broker)@ == spec_send(old(broker)@, adv.action.plugin, r.1@)
                    &&& delivered_one(
                        old(deliveries)@,
                        final(deliveries)@,
                        old(broker)@.connected,
                        adv.action.plugin,
                        r.1@,
                    )
                },
            }
        }),
{
    let context = Context {
        device: device.id.clone(),
        profile: profile.to_owned(),
        controller: Controller::Keypad,
        position: key,
    };
    let slot = match stores.get_slot(&context) {
        Ok(s) => s,
        Err(e) => {
            return (Err(e), Ghost(arbitrary()));
        },
    };
    match slot {
        None => (Ok(false), Ghost(arbitrary())),
        Some(instance) => {
            let mut advanced = dup_instance(instance);
            if advanced.states.len() == 2 && !advanced.action.disable_automatic_states {
                advanced.current_state = ((advanced.current_state as u32 + 1) % 2) as u16;
            }
            let msg = make_instance_message(EventName::KeyUp, &advanced, device.columns, false);
            let plugin = advanced.action.plugin.clone();
            stores.set_slot(&context, Some(advanced));
            let gm = dispatch(broker, deliveries, plugin.as_str(), msg);
            (Ok(true), gm)
        },
    }
}

/// Whether a batch is exactly the playback of a container's children:
/// for each child in order, `keyDown` with its state as it was, then
/// `keyUp` with its state advanced, both addressed to the child's plugin.
pub open spec fn playback_messages(
    ms: Seq<(Seq<char>, OutboundMessage)>,
    cs: Seq<ActionInstanceV>,
    columns: u8,
) -> bool {
    &&& ms.len() == 2 * cs.len()
    &&& forall|j: int|
        0 <= j < cs.len() ==> (#[trigger] ms[2 * j]).0 == cs[j].action.plugin && ms[2 * j + 1].0
            == cs[j].action.plugin && is_instance_message(
            ms[2 * j].1,
            EventName::KeyDown,
            cs[j],
            columns,
            true,
        ) && is_instance_message(ms[2 * j + 1].1, EventName::KeyUp, spec_advance(cs[j]), columns, true)
}

/// A key press. A plain instance's plugin hears `keyDown` and nothing
/// changes. A container instead plays its children in order: each child
/// hears `keyDown`, advances by the automatic state rule, then hears
/// `keyUp` — the caller inserts the fixed delays between consecutive
/// messages and persists the profile.
#[verifier::rlimit(100)]
#[verifier::spinoff_prover]
pub fn key_down(
    stores: &mut ProfileStores,
    broker: &mut Broker<OutboundMessage>,
    deliveries: &mut Vec<(String, OutboundMessage)>,
    device: &DeviceInfo,
    profile: &str,
    key: u8,
) -> (r: (Result<bool, Error>, Ghost<Seq<(Seq<char>, OutboundMessage)>>))
    ensures
        spec_slot_of(old(stores)@, press_ctx(device.id@, profile@, key)) is None ==> (r.0 is Err
            && final(stores)@ == old(stores)@ && final(broker)@ == old(broker)@ && final(deliveries)@ == old(deliveries)@),
        spec_slot_of(old(stores)@, press_ctx(device.id@, profile@, key)) == Some(
            None::<ActionInstanceV>,
        ) ==> (r.0 == Ok::<bool, Error>(false) && final(stores)@ == old(stores)@ && final(broker)@ == old(broker)@ && final(deliveries)@ == old(deliveries)@),
        spec_slot_of(old(stores)@, press_ctx(device.id@, profile@, key)) matches Some(Some(i))
            ==> i.children is None ==> (r.0 == Ok::<bool, Error>(false) && final(stores)@ == old(stores)@ && final(broker)@ == spec_send_seq(old(broker)@, r.1@) && r.1@.len() == 1 && r.1@[0].0
            == i.action.plugin && is_instance_message(
            r.1@[0].1,
            EventName::KeyDown,
            i,
            device.columns,
            false,
        ) && delivered_one(
            old(deliveries)@,
            final(deliveries)@,
            old(broker)@.connected,
            i.action.plugin,
            r.1@[0].1,
        )),
        spec_slot_of(old(stores)@, press_ctx(device.id@, profile@, key)) matches Some(Some(i))
            ==> i.children matches Some(cs) ==> (r.0 == Ok::<bool, Error>(true) && final(stores)@ == spec_set_slot(
            old(stores)@,
            press_ctx(device.id@, profile@, key),
            Some(
                ActionInstanceV {
                    children: Some(cs.map_values(|c: ActionInstanceV| spec_advance(c))),
                    ..i
                },
            ),
        ) && final(broker)@ == spec_send_seq(old(broker)@, r.1@) && playback_messages(
            r.1@,
            cs,
            device.columns,
        ) && deliveries_extended(
            old(deliveries)@,
            final(deliveries)@,
            old(broker)@.connected,
            r.1@,
        )),
{
    let context = Context {
        device: device.id.clone(),
        profile: profile.to_owned(),
        controller: Controller::Keypad,
        position: key,
    };
    let slot = match stores.get_slot(&context) {
        Ok(s) => s,
        Err(e) => {
            return (Err(e), Ghost(arbitrary()));
        },
    };
    match slot {
        None => (Ok(false), Ghost(arbitrary())),
        Some(instance) => {
            match &instance.children {
                None => {
                    let msg = make_instance_message(
                        EventName::KeyDown,
                        instance,
                        device.columns,
                        false,
                    );
                    let plugin = instance.action.plugin.clone();
                    let gm = dispatch(broker, deliveries, plugin.as_str(), msg);
                    let ghost sent = seq![(plugin@, gm@)];
                    proof {
                        assert(sent[0] == (plugin@, gm@));
                        assert(sent.drop_first()
                            =~= Seq::<(Seq<char>, OutboundMessage)>::empty());
                        assert(spec_send_seq(
                            spec_send(old(broker)@, plugin@, gm@),
                            sent.drop_first(),
                        ) == spec_send(old(broker)@, plugin@, gm@));
                        assert(broker@ == spec_send_seq(old(broker)@, sent));
                    }
                    (Ok(false), Ghost(sent))
                },
                Some(cs) => {
                    let ghost i0 = instance@;
                    let ghost csv = cs.deep_view();
                    let ghost b0 = broker@;
                    let ghost d0 = deliveries@;
                    let mut advanced: Vec<ChildInstance> = Vec::new();
                    let ghost sent0: Seq<(Seq<char>, OutboundMessage)> = Seq::empty();
                    let mut sent: Ghost<Seq<(Seq<char>, OutboundMessage)>> = Ghost(sent0);
                    proof {
                        lemma_deliveries_extended_empty(d0, b0.connected);
                    }
                    let mut j: usize = 0;
                    while j < cs.len()
                        invariant
                            0 <= j <= cs@.len(),
                            csv == cs.deep_view(),
                            advanced@.len() == j,
                            sent@.len() == 2 * j,
                            broker@ == spec_send_seq(b0, sent@),
                            broker@.connected == b0.connected,
                            deliveries_extended(d0, deliveries@, b0.connected, sent@),
                            forall|m: int|
                                0 <= m < j ==> #[trigger] advanced.deep_view()[m] == spec_advance(
                                    csv[m],
                                ),
                            forall|m: int|
                                0 <= m < j ==> (#[trigger] sent@[2 * m]).0 == csv[m].action.plugin
                                    && sent@[2 * m + 1].0 == csv[m].action.plugin
                                    && is_instance_message(
                                    sent@[2 * m].1,
                                    EventName::KeyDown,
                                    csv[m],
                                    device.columns,
                                    true,
                                ) && is_instance_message(
                                    sent@[2 * m + 1].1,
                                    EventName::KeyUp,
                                    spec_advance(csv[m]),
                                    device.columns,
                                    true,
                                ),
                        decreases cs@.len() - j,
                    {
                        proof {
                            assert(csv[j as int] == cs@[j as int]@);
                        }
                        let child = &cs[j];
                        let as_inst = child_as_instance(child);
                        let down = make_instance_message(
                            EventName::KeyDown,
                            &as_inst,
                            device.columns,
                            true,
                        );
                        let plugin = child.action.plugin.clone();
                        let ghost sprev = sent@;
                        let ghost dpre = deliveries@;
                        let gdown = dispatch(broker, deliveries, plugin.as_str(), down);
                        proof {
                            lemma_send_seq_snoc(b0, sent@, (plugin@, gdown@));
                            lemma_deliveries_extended_step(
                                d0,
                                dpre,
                                deliveries@,
                                b0.connected,
                                sent@,
                                (plugin@, gdown@),
                            );
                        }
                        proof {
                            sent@ = sent@.push((plugin@, gdown@));
                        }
                        let mut adv = dup_child_instance(child);
                        if adv.states.len() == 2 && !adv.action.disable_automatic_states {
                            adv.current_state = ((adv.current_state as u32 + 1) % 2) as u16;
                        }
                        let adv_inst = child_as_instance(&adv);
                        let up = make_instance_message(
                            EventName::KeyUp,
                            &adv_inst,
                            device.columns,
                            true,
                        );
                        let ghost dpre2 = deliveries@;
                        let gup = dispatch(broker, deliveries, plugin.as_str(), up);
                        proof {
                            lemma_send_seq_snoc(b0, sent@, (plugin@, gup@));
                            lemma_deliveries_extended_step(
                                d0,
                                dpre2,
                                deliveries@,
                                b0.connected,
                                sent@,
                                (plugin@, gup@),
                            );
                        }
                        proof {
                            sent@ = sent@.push((plugin@, gup@));
                            assert(adv@ == spec_advance(csv[j as int]));
                            assert(sent@[2 * (j as int)] == (plugin@, gdown@));
                            assert(sent@[2 * (j as int) + 1] == (plugin@, gup@));
                            assert(plugin@ == csv[j as int].action.plugin);
                            assert forall|m: int| 0 <= m < j + 1 implies ((#[trigger] sent@[2
                                * m]).0 == csv[m].action.plugin && sent@[2 * m + 1].0
                                == csv[m].action.plugin && is_instance_message(
                                sent@[2 * m].1,
                                EventName::KeyDown,
                                csv[m],
                                device.columns,
                                true,
                            ) && is_instance_message(
                                sent@[2 * m + 1].1,
                                EventName::KeyUp,
                                spec_advance(csv[m]),
                                device.columns,
                                true,
                            )) by {
                                if m < j {
                                    assert(sent@[2 * m] == sprev[2 * m]);
                                    assert(sent@[2 * m + 1] == sprev[2 * m + 1]);
                                }
                            }
                        }
                        let ghost aprev = advanced.deep_view();
                        advanced.push(adv);
                        proof {
                            assert forall|m: int|
                                0 <= m < j + 1 implies #[trigger] advanced.deep_view()[m]
                                == if m < j {
                                aprev[m]
                            } else {
                                spec_advance(csv[j as int])
                            } by {
                                assert(advanced.deep_view()[m] == advanced@[m]@);
                            }
                        }
                        j = j + 1;
                    }
                    let updated = ActionInstance {
                        action: crate::shared::dup_action(&instance.action),
                        context: dup_action_context(&instance.context),
                        states: crate::shared::dup_action_states(&instance.states),
                        current_state: instance.current_state,
                        settings: instance.settings.clone(),
                        children: Some(advanced),
                    };
                    proof {
                        assert(updated@.children matches Some(a) && a =~= csv.map_values(
                            |c: ActionInstanceV| spec_advance(c),
                        ));
                        assert(updated@ == ActionInstanceV {
                            children: Some(csv.map_values(|c: ActionInstanceV| spec_advance(c))),
                            ..i0
                        });
                        assert(spec_slot_of(old(stores)@, context@) == Some(Some(i0)));
                        assert(i0.children == Some(csv));
                        assert(broker@ == spec_send_seq(old(broker)@, sent@));
                        assert(sent@.len() == 2 * csv.len());
                        assert forall|m: int| 0 <= m < csv.len() implies ((#[trigger] sent@[2
                            * m]).0 == csv[m].action.plugin && sent@[2 * m + 1].0
                            == csv[m].action.plugin && is_instance_message(
                            sent@[2 * m].1,
                            EventName::KeyDown,
                            csv[m],
                            device.columns,
                            true,
                        ) && is_instance_message(
                            sent@[2 * m + 1].1,
                            EventName::KeyUp,
                            spec_advance(csv[m]),
                            device.columns,
                            true,
                        )) by {}
                        assert(playback_messages(sent@, csv, device.columns));
                    }
                    stores.set_slot(&context, Some(updated));
                    (Ok(true), sent)
                },
            }
        },
    }
}


/// Whether a message is the `dialRotate` event for an instance with a tick
/// delta; the pressed flag is always false on this path.
pub open spec fn is_dial_rotate_message(
    m: OutboundMessage,
    i: ActionInstanceV,
    columns: u8,
    tick_delta: i16,
) -> bool {
    &&& m matches OutboundMessage::DialRotate { action, context, device, settings, coordinates, ticks, pressed }
    &&& m matches OutboundMessage::DialRotate { action, .. } && action@ == i.action.uuid
    &&& m matches OutboundMessage::DialRotate { context, .. } && context@ == i.context
    &&& m matches OutboundMessage::DialRotate { device, .. } && device@ == i.context.device
    &&& m matches OutboundMessage::DialRotate { settings, .. } && settings@ == i.settings
    &&& m matches OutboundMessage::DialRotate { coordinates, .. } && coordinates
        == spec_coordinates(i.context.controller, i.context.position, columns)
    &&& m matches OutboundMessage::DialRotate { ticks, .. } && ticks == tick_delta
    &&& m matches OutboundMessage::DialRotate { pressed, .. } && pressed == false
}

/// A dial turn: the encoder slot's instance, if any, hears `dialRotate`
/// with the signed tick delta.
pub fn dial_rotate(
    stores: &ProfileStores,
    broker: &mut Broker<OutboundMessage>,
    deliveries: &mut Vec<(String, OutboundMessage)>,
    device: &DeviceInfo,
    profile: &str,
    index: u8,
    ticks: i16,
) -> (r: (Result<(), Error>, Ghost<OutboundMessage>))
    ensures
        ({
            let ctx = ContextV {
                device: device.id@,
                profile: profile@,
                controller: Controller::Encoder,
                position: index,
            };
            match spec_slot_of(stores@, ctx) {
                None => r.0 is Err && final(broker)@ == old(broker)@ && final(deliveries)@ == old(deliveries)@,
                Some(None) => r.0 is Ok && final(broker)@ == old(broker)@ && final(deliveries)@ == old(deliveries)@,
                Some(Some(i)) => r.0 is Ok && is_dial_rotate_message(
                    r.1@,
                    i,
                    device.columns,
                    ticks,
                ) && final(broker)@ == spec_send(old(broker)@, i.action.plugin, r.1@)
                    && delivered_one(
                    old(deliveries)@,
                    final(deliveries)@,
                    old(broker)@.connected,
                    i.action.plugin,
                    r.1@,
                ),
            }
        }),
{
    let context = Context {
        device: device.id.clone(),
        profile: profile.to_owned(),
        controller: Controller::Encoder,
        position: index,
    };
    let slot = match stores.get_slot(&context) {
        Ok(s) => s,
        Err(e) => {
            return (Err(e), Ghost(arbitrary()));
        },
    };
    match slot {
        None => (Ok(()), Ghost(arbitrary())),
        Some(instance) => {
            let msg = OutboundMessage::DialRotate {
                action: instance.action.uuid.clone(),
                context: dup_action_context(&instance.context),
                device: instance.context.device.clone(),
                settings: instance.settings.clone(),
                coordinates: make_coordinates(
                    instance.context.controller,
                    instance.context.position,
                    device.columns,
                ),
                ticks,
                pressed: false,
            };
            let plugin = instance.action.plugin.clone();
            let gm = dispatch(broker, deliveries, plugin.as_str(), msg);
            (Ok(()), gm)
        },
    }
}

/// Whether a message is a dial press or release event for an instance.
pub open spec fn is_dial_press_message(
    m: OutboundMessage,
    ev: EventName,
    i: ActionInstanceV,
    columns: u8,
) -> bool {
    &&& m matches OutboundMessage::DialPress { event, action, context, device, settings, coordinates }
    &&& m matches OutboundMessage::DialPress { event, .. } && event == ev
    &&& m matches OutboundMessage::DialPress { action, .. } && action@ == i.action.uuid
    &&& m matches OutboundMessage::DialPress { context, .. } && context@ == i.context
    &&& m matches OutboundMessage::DialPress { device, .. } && device@ == i.context.device
    &&& m matches OutboundMessage::DialPress { settings, .. } && settings@ == i.settings
    &&& m matches OutboundMessage::DialPress { coordinates, .. } && coordinates
        == spec_coordinates(i.context.controller, i.context.position, columns)
}

/// A dial press or release: the encoder slot's instance, if any, hears
/// `dialDown` or `dialUp`.
pub fn dial_press(
    stores: &ProfileStores,
    broker: &mut Broker<OutboundMessage>,
    deliveries: &mut Vec<(String, OutboundMessage)>,
    device: &DeviceInfo,
    profile: &str,
    event: EventName,
    index: u8,
) -> (r: (Result<(), Error>, Ghost<OutboundMessage>))
    requires
        event == EventName::DialDown || event == EventName::DialUp,
    ensures
        ({
            let ctx = ContextV {
                device: device.id@,
                profile: profile@,
                controller: Controller::Encoder,
                position: index,
            };
            match spec_slot_of(stores@, ctx) {
                None => r.0 is Err && final(broker)@ == old(broker)@ && final(deliveries)@ == old(deliveries)@,
                Some(None) => r.0 is Ok && final(broker)@ == old(broker)@ && final(deliveries)@ == old(deliveries)@,
                Some(Some(i)) => r.0 is Ok && is_dial_press_message(
                    r.1@,
                    event,
                    i,
                    device.columns,
                ) && final(broker)@ == spec_send(old(broker)@, i.action.plugin, r.1@)
                    && delivered_one(
                    old(deliveries)@,
                    final(deliveries)@,
                    old(broker)@.connected,
                    i.action.plugin,
                    r.1@,
                ),
            }
        }),
{
    let context = Context {
        device: device.id.clone(),
        profile: profile.to_owned(),
        controller: Controller::Encoder,
        position: index,
    };
    let slot = match stores.get_slot(&context) {
        Ok(s) => s,
        Err(e) => {
            return (Err(e), Ghost(arbitrary()));
        },
    };
    match slot {
        None => (Ok(()), Ghost(arbitrary())),
        Some(instance) => {
            let msg = OutboundMessage::DialPress {
                event,
                action: instance.action.uuid.clone(),
                context: dup_action_context(&instance.context),
                device: instance.context.device.clone(),
                settings: instance.settings.clone(),
                coordinates: make_coordinates(
                    instance.context.controller,
                    instance.context.position,
                    device.columns,
                ),
            };
            let plugin = instance.action.plugin.clone();
            let gm = dispatch(broker, deliveries, plugin.as_str(), msg);
            (Ok(()), gm)
        },
    }
}

/// An instance enters visibility: its plugin hears `willAppear`.
pub fn will_appear(
    broker: &mut Broker<OutboundMessage>,
    deliveries: &mut Vec<(String, OutboundMessage)>,
    instance: &ActionInstance,
    columns: u8,
    multi: bool,
) -> (gm: Ghost<OutboundMessage>)
    ensures
        is_instance_message(gm@, EventName::WillAppear, instance@, columns, multi),
        final(broker)@ == spec_send(old(broker)@, instance@.action.plugin, gm@),
        delivered_one(
            old(deliveries)@,
            final(deliveries)@,
            old(broker)@.connected,
            instance@.action.plugin,
            gm@,
        ),
{
    let msg = make_instance_message(EventName::WillAppear, instance, columns, multi);
    let plugin = instance.action.plugin.clone();
    dispatch(broker, deliveries, plugin.as_str(), msg)
}

/// An instance leaves visibility: its plugin hears `willDisappear`. When
/// it leaves a physical surface for good, the caller also clears the
/// rendered image through [`update_image`].
pub fn will_disappear(
    broker: &mut Broker<OutboundMessage>,
    deliveries: &mut Vec<(String, OutboundMessage)>,
    instance: &ActionInstance,
    columns: u8,
    multi: bool,
) -> (gm: Ghost<OutboundMessage>)
    ensures
        is_instance_message(gm@, EventName::WillDisappear, instance@, columns, multi),
        final(broker)@ == spec_send(old(broker)@, instance@.action.plugin, gm@),
        delivered_one(
            old(deliveries)@,
            final(deliveries)@,
            old(broker)@.connected,
            instance@.action.plugin,
            gm@,
        ),
{
    let msg = make_instance_message(EventName::WillDisappear, instance, columns, multi);
    let plugin = instance.action.plugin.clone();
    dispatch(broker, deliveries, plugin.as_str(), msg)
}

/// The settings of an instance were read or changed: the side that did not
/// ask hears `didReceiveSettings` — the plugin by its id, or the property
/// inspector under the instance's context string.
pub fn did_receive_settings(
    broker: &mut Broker<OutboundMessage>,
    deliveries: &mut Vec<(String, OutboundMessage)>,
    instance: &ActionInstance,
    columns: u8,
    to_property_inspector: bool,
) -> (gm: Ghost<OutboundMessage>)
    ensures
        is_instance_message(gm@, EventName::DidReceiveSettings, instance@, columns, false),
        final(broker)@ == spec_send(
            old(broker)@,
            if to_property_inspector {
                crate::shared::spec_format_context(instance@.context)
            } else {
                instance@.action.plugin
            },
            gm@,
        ),
        delivered_one(
            old(deliveries)@,
            final(deliveries)@,
            old(broker)@.connected,
            if to_property_inspector {
                crate::shared::spec_format_context(instance@.context)
            } else {
                instance@.action.plugin
            },
            gm@,
        ),
{
    let msg = make_instance_message(EventName::DidReceiveSettings, instance, columns, false);
    if to_property_inspector {
        let key = instance.context.encode();
        dispatch(broker, deliveries, key.as_str(), msg)
    } else {
        let plugin = instance.action.plugin.clone();
        dispatch(broker, deliveries, plugin.as_str(), msg)
    }
}

/// A visual state or title change on an instance: its plugin hears
/// `titleParametersDidChange` with the indexed state's styling.
pub fn title_parameters_did_change(
    broker: &mut Broker<OutboundMessage>,
    deliveries: &mut Vec<(String, OutboundMessage)>,
    instance: &ActionInstance,
    columns: u8,
    state: u16,
) -> (r: (Result<(), Error>, Ghost<OutboundMessage>))
    ensures
        (state as int) < instance.states@.len() ==> ({
            let st = instance.states.deep_view()[state as int];
            &&& r.0 is Ok
            &&& r.1@ matches OutboundMessage::TitleParametersDidChange {
                action,
                context,
                device,
                settings,
                coordinates,
                state: s2,
                title,
                title_parameters,
            }
            &&& r.1@ matches OutboundMessage::TitleParametersDidChange { action, .. } && action@
                == instance@.action.uuid
            &&& r.1@ matches OutboundMessage::TitleParametersDidChange { context, .. }
                && context@ == instance@.context
            &&& r.1@ matches OutboundMessage::TitleParametersDidChange { settings, .. }
                && settings@ == instance@.settings
            &&& r.1@ matches OutboundMessage::TitleParametersDidChange { coordinates, .. }
                && coordinates == spec_coordinates(
                instance.context.controller,
                instance.context.position,
                columns,
            )
            &&& r.1@ matches OutboundMessage::TitleParametersDidChange { state: s2, .. } && s2
                == instance.current_state
            &&& r.1@ matches OutboundMessage::TitleParametersDidChange { title, .. } && title@
                == st.text
            &&& r.1@ matches OutboundMessage::TitleParametersDidChange { title_parameters, .. }
                && title_parameters.font_size@ == st.size
                && title_parameters.font_style@ == st.style
                && title_parameters.font_underline == st.underline
                && title_parameters.show_title == st.show
                && title_parameters.title_alignment@ == st.alignment
                && title_parameters.title_colour@ == st.colour
            &&& final(broker)@ == spec_send(old(broker)@, instance@.action.plugin, r.1@)
            &&& delivered_one(
                old(deliveries)@,
                final(deliveries)@,
                old(broker)@.connected,
                instance@.action.plugin,
                r.1@,
            )
        }),
        (state as int) >= instance.states@.len() ==> r.0 is Err && final(broker)@ == old(broker)@
            && final(deliveries)@ == old(deliveries)@,
{
    if (state as usize) >= instance.states.len() {
        return (Err(Error::from_kind(ErrorKind::NotFound)), Ghost(arbitrary()));
    }
    let st = &instance.states[state as usize];
    proof {
        assert(instance.states.deep_view()[state as int] == instance.states@[state as int]@);
    }
    let msg = OutboundMessage::TitleParametersDidChange {
        action: instance.action.uuid.clone(),
        context: dup_action_context(&instance.context),
        device: instance.context.device.clone(),
        settings: instance.settings.clone(),
        coordinates: make_coordinates(
            instance.context.controller,
            instance.context.position,
            columns,
        ),
        state: instance.current_state,
        title: st.text.clone(),
        title_parameters: crate::messages::TitleParameters {
            font_family: String::new(),
            font_size: st.size.clone(),
            font_style: st.style.clone(),
            font_underline: st.underline,
            show_title: st.show,
            title_alignment: st.alignment.clone(),
            title_colour: st.colour.clone(),
        },
    };
    let plugin = instance.action.plugin.clone();
    let gm = dispatch(broker, deliveries, plugin.as_str(), msg);
    (Ok(()), gm)
}

/// Where a device-directed command goes: to the plugin that owns the
/// device's namespace, to the built-in driver for its ids, or nowhere.
pub enum DeviceRoute {
    Plugin(String),
    Builtin,
    Unrouted,
}

/// Which handler serves a device id: a plugin that claimed its
/// two-character prefix, the built-in driver for `sd-` ids, or none.
pub open spec fn spec_device_route(ns: crate::registry::NamespacesV, id: Seq<char>) -> Option<
    Seq<char>,
> {
    if id.len() >= 2 {
        ns_of(ns, spec_device_prefix(id))
    } else {
        None
    }
}

/// Resolve the handler of a device id.
pub fn device_route(namespaces: &DeviceNamespaces, id: &str) -> (r: DeviceRoute)
    ensures
        match r {
            DeviceRoute::Plugin(p) => spec_device_route(namespaces@, id@) == Some(p@),
            DeviceRoute::Builtin => spec_device_route(namespaces@, id@) is None
                && "sd-"@.is_prefix_of(id@),
            DeviceRoute::Unrouted => spec_device_route(namespaces@, id@) is None && !"sd-"@.is_prefix_of(
                id@,
            ),
        },
{
    match device_prefix(id) {
        Some(prefix) => match namespaces.owner_of(prefix.as_str()) {
            Some(owner) => DeviceRoute::Plugin(owner),
            None => {
                if starts_with_str(id, "sd-") {
                    DeviceRoute::Builtin
                } else {
                    DeviceRoute::Unrouted
                }
            },
        },
        None => {
            proof {
                reveal_strlit("sd-");
                assert("sd-"@.len() == 3);
            }
            if starts_with_str(id, "sd-") {
                DeviceRoute::Builtin
            } else {
                DeviceRoute::Unrouted
            }
        },
    }
}

/// Update or clear the image at one slot of a device: a namespaced device's
/// plugin hears `setImage`; for a built-in id the caller drives the
/// hardware itself, as the returned route says.
pub fn update_image(
    broker: &mut Broker<OutboundMessage>,
    deliveries: &mut Vec<(String, OutboundMessage)>,
    namespaces: &DeviceNamespaces,
    device: String,
    position: u8,
    image: Option<String>,
) -> (r: (DeviceRoute, Ghost<OutboundMessage>))
    ensures
        ({
            match spec_device_route(namespaces@, device@) {
                Some(p) => {
                    &&& r.0 matches DeviceRoute::Plugin(q) && q@ == p
                    &&& r.1@ matches OutboundMessage::SetImage { device: d, position: pos, image: im }
                        && d@ == device@ && pos == Some(position) && (match (im, image) {
                        (Some(a), Some(b)) => a@ == b@,
                        (None, None) => true,
                        _ => false,
                    })
                    &&& final(broker)@ == spec_send(old(broker)@, p, r.1@)
                    &&& delivered_one(
                        old(deliveries)@,
                        final(deliveries)@,
                        old(broker)@.connected,
                        p,
                        r.1@,
                    )
                },
                None => final(broker)@ == old(broker)@ && final(deliveries)@ == old(deliveries)@
                    && !(r.0 is Plugin),
            }
        }),
{
    match device_route(namespaces, device.as_str()) {
        DeviceRoute::Plugin(owner) => {
            let msg = OutboundMessage::SetImage { device, position: Some(position), image };
            let gm = dispatch(broker, deliveries, owner.as_str(), msg);
            (DeviceRoute::Plugin(owner), gm)
        },
        DeviceRoute::Builtin => (DeviceRoute::Builtin, Ghost(arbitrary())),
        DeviceRoute::Unrouted => (DeviceRoute::Unrouted, Ghost(arbitrary())),
    }
}

/// Clear a device's whole surface: a namespaced device's plugin hears
/// `setImage` with no position; built-in ids are the caller's to clear.
pub fn clear_screen(
    broker: &mut Broker<OutboundMessage>,
    deliveries: &mut Vec<(String, OutboundMessage)>,
    namespaces: &DeviceNamespaces,
    device: String,
) -> (r: (DeviceRoute, Ghost<OutboundMessage>))
    ensures
        ({
            match spec_device_route(namespaces@, device@) {
                Some(p) => {
                    &&& r.0 matches DeviceRoute::Plugin(q) && q@ == p
                    &&& r.1@ matches OutboundMessage::SetImage { device: d, position: pos, image: im }
                        && d@ == device@ && pos is None && im is None
                    &&& final(broker)@ == spec_send(old(broker)@, p, r.1@)
                    &&& delivered_one(
                        old(deliveries)@,
                        final(deliveries)@,
                        old(broker)@.connected,
                        p,
                        r.1@,
                    )
                },
                None => final(broker)@ == old(broker)@ && final(deliveries)@ == old(deliveries)@
                    && !(r.0 is Plugin),
            }
        }),
{
    match device_route(namespaces, device.as_str()) {
        DeviceRoute::Plugin(owner) => {
            let msg = OutboundMessage::SetImage { device, position: None, image: None };
            let gm = dispatch(broker, deliveries, owner.as_str(), msg);
            (DeviceRoute::Plugin(owner), gm)
        },
        DeviceRoute::Builtin => (DeviceRoute::Builtin, Ghost(arbitrary())),
        DeviceRoute::Unrouted => (DeviceRoute::Unrouted, Ghost(arbitrary())),
    }
}


/// What the frontend shell must do after an inbound event: UI feedback,
/// persistence, or work only it can perform.
pub enum UiNotice {
    /// Show the alert overlay on an instance.
    ShowAlert(ActionContext),
    /// Show the ok overlay on an instance.
    ShowOk(ActionContext),
    /// Open a URL in the user's browser.
    OpenUrl(String),
    /// Write a line to the log.
    Log(String),
    /// Switch a device to another profile.
    SwitchProfile { device: String, profile: String },
    /// Repaint one instance in the grid.
    UpdateState(ActionContext),
    /// Write the named profile of a device back to disk.
    PersistProfile { device: String, profile: String },
    /// Write a plugin's global settings blob to its file.
    WriteGlobalSettings { plugin: String, payload: String },
    /// Read a plugin's global settings file and notify the given side.
    NotifyGlobalSettings { plugin: String, to_property_inspector: bool },
}

/// The context an inbound event addresses, when it addresses one.
pub open spec fn spec_event_context(e: InboundEvent) -> Option<ActionContextV> {
    match e {
        InboundEvent::SetSettings(ev) => Some(ev.context@),
        InboundEvent::GetSettings(ev) => Some(ev.context@),
        InboundEvent::SetTitle(ev) => Some(ev.context@),
        InboundEvent::SetImage(ev) => Some(ev.context@),
        InboundEvent::SetState(ev) => Some(ev.context@),
        InboundEvent::ShowAlert(ev) => Some(ev.context@),
        InboundEvent::ShowOk(ev) => Some(ev.context@),
        InboundEvent::SendToPropertyInspector(ev) => Some(ev.context@),
        _ => None,
    }
}

/// Whether a plugin connection may submit an event: an event addressing an
/// instance owned by another plugin is refused, as is a global-settings
/// event naming another identity. An address that resolves to no instance
/// passes through — the handler then does nothing.
pub open spec fn spec_plugin_event_authorized(s: StoresV, e: InboundEvent, uuid: Seq<char>) -> bool {
    match spec_event_context(e) {
        Some(ctx) => match spec_instance_at(s, ctx) {
            Some(i) => i.action.plugin == uuid,
            None => true,
        },
        None => match e {
            InboundEvent::SetGlobalSettings(ev) => ev.context@ == uuid,
            InboundEvent::GetGlobalSettings(ev) => ev.context@ == uuid,
            _ => true,
        },
    }
}

/// Decide whether a plugin connection may submit an event.
pub fn authorize_plugin_event(stores: &ProfileStores, event: &InboundEvent, uuid: &str) -> (r:
    bool)
    ensures
        r == spec_plugin_event_authorized(stores@, *event, uuid@),
{
    let context: Option<&ActionContext> = match event {
        InboundEvent::SetSettings(ev) => Some(&ev.context),
        InboundEvent::GetSettings(ev) => Some(&ev.context),
        InboundEvent::SetTitle(ev) => Some(&ev.context),
        InboundEvent::SetImage(ev) => Some(&ev.context),
        InboundEvent::SetState(ev) => Some(&ev.context),
        InboundEvent::ShowAlert(ev) => Some(&ev.context),
        InboundEvent::ShowOk(ev) => Some(&ev.context),
        InboundEvent::SendToPropertyInspector(ev) => Some(&ev.context),
        _ => None,
    };
    match context {
        Some(ctx) => {
            match stores.get_instance(ctx) {
                Ok(Some(instance)) => str_eq(instance.action.plugin.as_str(), uuid),
                _ => true,
            }
        },
        None => {
            match event {
                InboundEvent::SetGlobalSettings(ev) => str_eq(ev.context.as_str(), uuid),
                InboundEvent::GetGlobalSettings(ev) => str_eq(ev.context.as_str(), uuid),
                _ => true,
            }
        },
    }
}

/// The column count of a device, zero when it is unknown.
pub open spec fn spec_device_columns(reg: crate::registry::DevicesV, id: Seq<char>) -> u8 {
    match crate::registry::dev_of(reg, id) {
        Some(d) => d.columns,
        None => 0,
    }
}

/// Look a device's column count up.
pub fn device_columns(registry: &DeviceRegistry, id: &str) -> (r: u8)
    ensures
        r == spec_device_columns(registry@, id@),
{
    match registry.get(id) {
        Some(d) => d.columns,
        None => 0,
    }
}

/// Process one event from a plugin connection. An event the identity may
/// not submit is dropped whole: no store changes, nothing sent or queued,
/// nothing for the shell to do. An allowed event updates the addressed
/// instance, notifies the side that did not ask, and reports exactly what
/// the shell must persist or show; `r.1` is the notification frame, when
/// one goes out.
pub fn process_plugin_event(
    stores: &mut ProfileStores,
    registry: &DeviceRegistry,
    plugin_broker: &mut Broker<OutboundMessage>,
    pi_broker: &mut Broker<OutboundMessage>,
    plugin_deliveries: &mut Vec<(String, OutboundMessage)>,
    pi_deliveries: &mut Vec<(String, OutboundMessage)>,
    event: InboundEvent,
    uuid: &str,
) -> (r: (Result<Vec<UiNotice>, Error>, Ghost<Option<OutboundMessage>>))
    ensures
        !spec_plugin_event_authorized(old(stores)@, event, uuid@) ==> (final(stores)@ == old(stores)@ && final(plugin_broker)@ == old(plugin_broker)@ && final(pi_broker)@ == old(pi_broker)@ && final(plugin_deliveries)@ == old(plugin_deliveries)@ && final(pi_deliveries)@ == old(pi_deliveries)@ && (r.0 matches Ok(v) && v@.len() == 0)),
        spec_plugin_event_authorized(old(stores)@, event, uuid@) ==> match event {
            InboundEvent::SetSettings(ev) => {
                &&& final(stores)@ == spec_update_settings(old(stores)@, ev.context@, ev.payload@)
                &&& final(plugin_broker)@ == old(plugin_broker)@
                &&& final(plugin_deliveries)@ == old(plugin_deliveries)@
                &&& match spec_instance_at(old(stores)@, ev.context@) {
                    Some(i) => {
                        &&& r.1@ matches Some(m) && is_instance_message(
                            m,
                            EventName::DidReceiveSettings,
                            spec_with_settings(i, ev.payload@),
                            spec_device_columns(registry@, ev.context@.device),
                            false,
                        ) && final(pi_broker)@ == spec_send(
                            old(pi_broker)@,
                            crate::shared::spec_format_context(ev.context@),
                            m,
                        ) && delivered_one(
                            old(pi_deliveries)@,
                            final(pi_deliveries)@,
                            old(pi_broker)@.connected,
                            crate::shared::spec_format_context(ev.context@),
                            m,
                        )
                        &&& (r.0 matches Ok(v) && v@.len() == 1 && (v@[0]
                            matches UiNotice::PersistProfile { device, profile } && device@
                            == ev.context@.device && profile@ == ev.context@.profile))
                    },
                    None => final(pi_broker)@ == old(pi_broker)@ && final(pi_deliveries)@ == old(pi_deliveries)@ && (r.0 matches Ok(v) ==> v@.len() == 0),
                }
            },
            InboundEvent::GetSettings(ev) => {
                &&& final(stores)@ == old(stores)@
                &&& final(pi_broker)@ == old(pi_broker)@
                &&& final(pi_deliveries)@ == old(pi_deliveries)@
                &&& match spec_instance_at(old(stores)@, ev.context@) {
                    Some(i) => {
                        &&& r.1@ matches Some(m) && is_instance_message(
                            m,
                            EventName::DidReceiveSettings,
                            i,
                            spec_device_columns(registry@, ev.context@.device),
                            false,
                        ) && final(plugin_broker)@ == spec_send(
                            old(plugin_broker)@,
                            i.action.plugin,
                            m,
                        ) && delivered_one(
                            old(plugin_deliveries)@,
                            final(plugin_deliveries)@,
                            old(plugin_broker)@.connected,
                            i.action.plugin,
                            m,
                        )
                        &&& (r.0 matches Ok(v) && v@.len() == 0)
                    },
                    None => final(plugin_broker)@ == old(plugin_broker)@ && final(plugin_deliveries)@ == old(plugin_deliveries)@ && (r.0 matches Ok(v) ==> v@.len() == 0),
                }
            },
            InboundEvent::SetGlobalSettings(ev) => {
                &&& final(stores)@ == old(stores)@
                &&& final(plugin_broker)@ == old(plugin_broker)@
                &&& final(pi_broker)@ == old(pi_broker)@
                &&& (r.0 matches Ok(v) && v@.len() == 2 && (v@[0]
                    matches UiNotice::WriteGlobalSettings { plugin, payload } && plugin@
                    == ev.context@ && payload@ == ev.payload@) && (v@[1]
                    matches UiNotice::NotifyGlobalSettings { plugin, to_property_inspector }
                    && plugin@ == ev.context@ && to_property_inspector == true))
            },
            InboundEvent::GetGlobalSettings(ev) => {
                &&& final(stores)@ == old(stores)@
                &&& final(plugin_broker)@ == old(plugin_broker)@
                &&& final(pi_broker)@ == old(pi_broker)@
                &&& (r.0 matches Ok(v) && v@.len() == 1 && (v@[0]
                    matches UiNotice::NotifyGlobalSettings { plugin, to_property_inspector }
                    && plugin@ == ev.context@ && to_property_inspector == false))
            },
            InboundEvent::OpenUrl(ev) => final(stores)@ == old(stores)@ && (r.0 matches Ok(v)
                && v@.len() == 1 && (v@[0] matches UiNotice::OpenUrl(u) && u@ == ev.payload.url@)),
            InboundEvent::LogMessage(ev) => final(stores)@ == old(stores)@ && (r.0 matches Ok(v)
                && v@.len() == 1 && (v@[0] matches UiNotice::Log(t) && t@ == ev.payload.message@)),
            InboundEvent::SetTitle(ev) => {
                &&& final(stores)@ == spec_update_title(old(stores)@, ev.context@, match ev.payload.title {
                    Some(t) => Some(t@),
                    None => None,
                }, ev.payload.state)
                &&& final(plugin_broker)@ == old(plugin_broker)@
                &&& final(pi_broker)@ == old(pi_broker)@
                &&& match spec_instance_at(old(stores)@, ev.context@) {
                    Some(_) => (r.0 matches Ok(v) && v@.len() == 2 && (v@[0]
                        matches UiNotice::UpdateState(c) && c@ == ev.context@) && (v@[1]
                        matches UiNotice::PersistProfile { device, profile } && device@
                        == ev.context@.device && profile@ == ev.context@.profile)),
                    None => r.0 matches Ok(v) ==> v@.len() == 0,
                }
            },
            InboundEvent::SetImage(ev) => {
                &&& final(stores)@ == spec_update_image(old(stores)@, ev.context@, match ev.payload.image {
                    Some(t) => Some(t@),
                    None => None,
                }, ev.payload.state)
                &&& final(plugin_broker)@ == old(plugin_broker)@
                &&& final(pi_broker)@ == old(pi_broker)@
                &&& match spec_instance_at(old(stores)@, ev.context@) {
                    Some(_) => (r.0 matches Ok(v) && v@.len() == 2 && (v@[0]
                        matches UiNotice::UpdateState(c) && c@ == ev.context@) && (v@[1]
                        matches UiNotice::PersistProfile { device, profile } && device@
                        == ev.context@.device && profile@ == ev.context@.profile)),
                    None => r.0 matches Ok(v) ==> v@.len() == 0,
                }
            },
            InboundEvent::SetState(ev) => {
                &&& final(stores)@ == spec_update_current_state(
                    old(stores)@,
                    ev.context@,
                    ev.payload.state,
                )
                &&& final(plugin_broker)@ == old(plugin_broker)@
                &&& final(pi_broker)@ == old(pi_broker)@
                &&& match spec_instance_at(old(stores)@, ev.context@) {
                    Some(_) => (r.0 matches Ok(v) && v@.len() == 2 && (v@[0]
                        matches UiNotice::UpdateState(c) && c@ == ev.context@) && (v@[1]
                        matches UiNotice::PersistProfile { device, profile } && device@
                        == ev.context@.device && profile@ == ev.context@.profile)),
                    None => r.0 matches Ok(v) ==> v@.len() == 0,
                }
            },
            InboundEvent::ShowAlert(ev) => final(stores)@ == old(stores)@ && (r.0 matches Ok(v)
                && v@.len() == 1 && (v@[0] matches UiNotice::ShowAlert(c) && c@ == ev.context@)),
            InboundEvent::ShowOk(ev) => final(stores)@ == old(stores)@ && (r.0 matches Ok(v)
                && v@.len() == 1 && (v@[0] matches UiNotice::ShowOk(c) && c@ == ev.context@)),
            InboundEvent::SendToPropertyInspector(ev) => {
                &&& final(stores)@ == old(stores)@
                &&& final(plugin_broker)@ == old(plugin_broker)@
                &&& final(plugin_deliveries)@ == old(plugin_deliveries)@
                &&& match spec_instance_at(old(stores)@, ev.context@) {
                    Some(i) => {
                        &&& r.1@ matches Some(m) && (m matches OutboundMessage::Relay {
                            event: e2,
                            action,
                            context,
                            payload,
                        } && e2 == EventName::SendToPropertyInspector && action@ == i.action.uuid
                            && context@ == ev.context@ && payload@ == ev.payload@)
                            && final(pi_broker)@ == spec_send(
                            old(pi_broker)@,
                            crate::shared::spec_format_context(ev.context@),
                            m,
                        ) && delivered_one(
                            old(pi_deliveries)@,
                            final(pi_deliveries)@,
                            old(pi_broker)@.connected,
                            crate::shared::spec_format_context(ev.context@),
                            m,
                        )
                        &&& (r.0 matches Ok(v) && v@.len() == 0)
                    },
                    None => final(pi_broker)@ == old(pi_broker)@ && final(pi_deliveries)@ == old(pi_deliveries)@ && (r.0 matches Ok(v) ==> v@.len() == 0),
                }
            },
            InboundEvent::SendToPlugin(_) => final(stores)@ == old(stores)@ && final(plugin_broker)@ == old(plugin_broker)@ && final(pi_broker)@ == old(pi_broker)@ && (r.0 matches Ok(v) && v@.len() == 0),
            InboundEvent::SwitchProfile(ev) => final(stores)@ == old(stores)@ && (r.0
                matches Ok(v) && v@.len() == 1 && (v@[0] matches UiNotice::SwitchProfile {
                device,
                profile,
            } && device@ == ev.device@ && profile@ == ev.profile@)),
        },
{
    if !authorize_plugin_event(stores, &event, uuid) {
        return (Ok(Vec::new()), Ghost(None));
    }
    match event {
        InboundEvent::SetSettings(ev) => {
            let columns = device_columns(registry, ev.context.device.as_str());
            let device = ev.context.device.clone();
            let profile = ev.context.profile.clone();
            match update_instance_settings(stores, &ev.context, ev.payload) {
                Err(e) => (Err(e), Ghost(None)),
                Ok(None) => (Ok(Vec::new()), Ghost(None)),
                Ok(Some(updated)) => {
                    proof {
                        crate::profiles::lemma_instance_at_context(old(stores)@, ev.context@);
                    }
                    let gm = did_receive_settings(pi_broker, pi_deliveries, &updated, columns, true);
                    let mut notices: Vec<UiNotice> = Vec::new();
                    notices.push(UiNotice::PersistProfile { device, profile });
                    (Ok(notices), Ghost(Some(gm@)))
                },
            }
        },
        InboundEvent::GetSettings(ev) => {
            let columns = device_columns(registry, ev.context.device.as_str());
            match stores.get_instance(&ev.context) {
                Err(e) => (Err(e), Ghost(None)),
                Ok(None) => (Ok(Vec::new()), Ghost(None)),
                Ok(Some(instance)) => {
                    let gm = did_receive_settings(
                        plugin_broker,
                        plugin_deliveries,
                        &instance,
                        columns,
                        false,
                    );
                    (Ok(Vec::new()), Ghost(Some(gm@)))
                },
            }
        },
        InboundEvent::SetGlobalSettings(ev) => {
            let mut notices: Vec<UiNotice> = Vec::new();
            notices.push(
                UiNotice::WriteGlobalSettings { plugin: ev.context.clone(), payload: ev.payload },
            );
            notices.push(
                UiNotice::NotifyGlobalSettings { plugin: ev.context, to_property_inspector: true },
            );
            (Ok(notices), Ghost(None))
        },
        InboundEvent::GetGlobalSettings(ev) => {
            let mut notices: Vec<UiNotice> = Vec::new();
            notices.push(
                UiNotice::NotifyGlobalSettings { plugin: ev.context, to_property_inspector: false },
            );
            (Ok(notices), Ghost(None))
        },
        InboundEvent::OpenUrl(ev) => {
            let mut notices: Vec<UiNotice> = Vec::new();
            notices.push(UiNotice::OpenUrl(ev.payload.url));
            (Ok(notices), Ghost(None))
        },
        InboundEvent::LogMessage(ev) => {
            let mut notices: Vec<UiNotice> = Vec::new();
            notices.push(UiNotice::Log(ev.payload.message));
            (Ok(notices), Ghost(None))
        },
        InboundEvent::SetTitle(ev) => {
            let device = ev.context.device.clone();
            let profile = ev.context.profile.clone();
            let target = dup_action_context(&ev.context);
            match update_instance_title(stores, &ev.context, ev.payload.title, ev.payload.state) {
                Err(e) => (Err(e), Ghost(None)),
                Ok(None) => (Ok(Vec::new()), Ghost(None)),
                Ok(Some(_)) => {
                    let mut notices: Vec<UiNotice> = Vec::new();
                    notices.push(UiNotice::UpdateState(target));
                    notices.push(UiNotice::PersistProfile { device, profile });
                    (Ok(notices), Ghost(None))
                },
            }
        },
        InboundEvent::SetImage(ev) => {
            let device = ev.context.device.clone();
            let profile = ev.context.profile.clone();
            let target = dup_action_context(&ev.context);
            match update_instance_image(stores, &ev.context, ev.payload.image, ev.payload.state) {
                Err(e) => (Err(e), Ghost(None)),
                Ok(None) => (Ok(Vec::new()), Ghost(None)),
                Ok(Some(_)) => {
                    let mut notices: Vec<UiNotice> = Vec::new();
                    notices.push(UiNotice::UpdateState(target));
                    notices.push(UiNotice::PersistProfile { device, profile });
                    (Ok(notices), Ghost(None))
                },
            }
        },
        InboundEvent::SetState(ev) => {
            let device = ev.context.device.clone();
            let profile = ev.context.profile.clone();
            let target = dup_action_context(&ev.context);
            match update_instance_state(stores, &ev.context, ev.payload.state) {
                Err(e) => (Err(e), Ghost(None)),
                Ok(None) => (Ok(Vec::new()), Ghost(None)),
                Ok(Some(_)) => {
                    let mut notices: Vec<UiNotice> = Vec::new();
                    notices.push(UiNotice::UpdateState(target));
                    notices.push(UiNotice::PersistProfile { device, profile });
                    (Ok(notices), Ghost(None))
                },
            }
        },
        InboundEvent::ShowAlert(ev) => {
            let mut notices: Vec<UiNotice> = Vec::new();
            notices.push(UiNotice::ShowAlert(ev.context));
            (Ok(notices), Ghost(None))
        },
        InboundEvent::ShowOk(ev) => {
            let mut notices: Vec<UiNotice> = Vec::new();
            notices.push(UiNotice::ShowOk(ev.context));
            (Ok(notices), Ghost(None))
        },
        InboundEvent::SendToPropertyInspector(ev) => {
            match stores.get_instance(&ev.context) {
                Err(e) => (Err(e), Ghost(None)),
                Ok(None) => (Ok(Vec::new()), Ghost(None)),
                Ok(Some(instance)) => {
                    let key = ev.context.encode();
                    let msg = OutboundMessage::Relay {
                        event: EventName::SendToPropertyInspector,
                        action: instance.action.uuid.clone(),
                        context: ev.context,
                        payload: ev.payload,
                    };
                    let gm = dispatch(pi_broker, pi_deliveries, key.as_str(), msg);
                    (Ok(Vec::new()), Ghost(Some(gm@)))
                },
            }
        },
        InboundEvent::SendToPlugin(_) => (Ok(Vec::new()), Ghost(None)),
        InboundEvent::SwitchProfile(ev) => {
            let mut notices: Vec<UiNotice> = Vec::new();
            notices.push(UiNotice::SwitchProfile { device: ev.device, profile: ev.profile });
            (Ok(notices), Ghost(None))
        },
    }
}

/// Whether a property-inspector connection may submit an event: a context
/// it carries must be the inspector's own identity — the context string it
/// registered under — and a global-settings event must name it too.
pub open spec fn spec_pi_event_authorized(e: InboundEvent, uuid: Seq<char>) -> bool {
    match e {
        InboundEvent::SetSettings(ev) => crate::shared::spec_format_context(ev.context@) == uuid,
        InboundEvent::GetSettings(ev) => crate::shared::spec_format_context(ev.context@) == uuid,
        InboundEvent::SendToPlugin(ev) => crate::shared::spec_format_context(ev.context@) == uuid,
        InboundEvent::SetGlobalSettings(ev) => ev.context@ == uuid,
        InboundEvent::GetGlobalSettings(ev) => ev.context@ == uuid,
        _ => true,
    }
}

/// Decide whether a property-inspector connection may submit an event.
pub fn authorize_pi_event(event: &InboundEvent, uuid: &str) -> (r: bool)
    ensures
        r == spec_pi_event_authorized(*event, uuid@),
{
    match event {
        InboundEvent::SetSettings(ev) => {
            let key = ev.context.encode();
            str_eq(key.as_str(), uuid)
        },
        InboundEvent::GetSettings(ev) => {
            let key = ev.context.encode();
            str_eq(key.as_str(), uuid)
        },
        InboundEvent::SendToPlugin(ev) => {
            let key = ev.context.encode();
            str_eq(key.as_str(), uuid)
        },
        InboundEvent::SetGlobalSettings(ev) => str_eq(ev.context.as_str(), uuid),
        InboundEvent::GetGlobalSettings(ev) => str_eq(ev.context.as_str(), uuid),
        _ => true,
    }
}

/// Process one event from a property-inspector connection. An event the
/// identity may not submit is dropped whole. Settings changes notify the
/// plugin side — never the asking inspector; global settings resolve
/// their owning plugin through the inspector's instance. `r.1` is the
/// notification frame, when one goes out.
pub fn process_pi_event(
    stores: &mut ProfileStores,
    registry: &DeviceRegistry,
    plugin_broker: &mut Broker<OutboundMessage>,
    pi_broker: &mut Broker<OutboundMessage>,
    plugin_deliveries: &mut Vec<(String, OutboundMessage)>,
    pi_deliveries: &mut Vec<(String, OutboundMessage)>,
    event: InboundEvent,
    uuid: &str,
) -> (r: (Result<Vec<UiNotice>, Error>, Ghost<Option<OutboundMessage>>))
    ensures
        !spec_pi_event_authorized(event, uuid@) ==> (final(stores)@ == old(stores)@ && final(plugin_broker)@ == old(plugin_broker)@ && final(pi_broker)@ == old(pi_broker)@ && final(plugin_deliveries)@ == old(plugin_deliveries)@ && final(pi_deliveries)@ == old(pi_deliveries)@ && (r.0 matches Ok(v) && v@.len() == 0)),
        spec_pi_event_authorized(event, uuid@) ==> match event {
            InboundEvent::SetSettings(ev) => {
                &&& final(stores)@ == spec_update_settings(old(stores)@, ev.context@, ev.payload@)
                &&& final(pi_broker)@ == old(pi_broker)@
                &&& final(pi_deliveries)@ == old(pi_deliveries)@
                &&& match spec_instance_at(old(stores)@, ev.context@) {
                    Some(i) => {
                        &&& r.1@ matches Some(m) && is_instance_message(
                            m,
                            EventName::DidReceiveSettings,
                            spec_with_settings(i, ev.payload@),
                            spec_device_columns(registry@, ev.context@.device),
                            false,
                        ) && final(plugin_broker)@ == spec_send(
                            old(plugin_broker)@,
                            i.action.plugin,
                            m,
                        ) && delivered_one(
                            old(plugin_deliveries)@,
                            final(plugin_deliveries)@,
                            old(plugin_broker)@.connected,
                            i.action.plugin,
                            m,
                        )
                        &&& (r.0 matches Ok(v) && v@.len() == 1 && (v@[0]
                            matches UiNotice::PersistProfile { device, profile } && device@
                            == ev.context@.device && profile@ == ev.context@.profile))
                    },
                    None => final(plugin_broker)@ == old(plugin_broker)@ && final(plugin_deliveries)@ == old(plugin_deliveries)@ && (r.0 matches Ok(v) ==> v@.len() == 0),
                }
            },
            InboundEvent::GetSettings(ev) => {
                &&& final(stores)@ == old(stores)@
                &&& final(plugin_broker)@ == old(plugin_broker)@
                &&& final(plugin_deliveries)@ == old(plugin_deliveries)@
                &&& match spec_instance_at(old(stores)@, ev.context@) {
                    Some(i) => {
                        &&& r.1@ matches Some(m) && is_instance_message(
                            m,
                            EventName::DidReceiveSettings,
                            i,
                            spec_device_columns(registry@, ev.context@.device),
                            false,
                        ) && final(pi_broker)@ == spec_send(
                            old(pi_broker)@,
                            crate::shared::spec_format_context(ev.context@),
                            m,
                        ) && delivered_one(
                            old(pi_deliveries)@,
                            final(pi_deliveries)@,
                            old(pi_broker)@.connected,
                            crate::shared::spec_format_context(ev.context@),
                            m,
                        )
                        &&& (r.0 matches Ok(v) && v@.len() == 0)
                    },
                    None => final(pi_broker)@ == old(pi_broker)@ && final(pi_deliveries)@ == old(pi_deliveries)@ && (r.0 matches Ok(v) ==> v@.len() == 0),
                }
            },
            InboundEvent::SetGlobalSettings(ev) => {
                &&& final(stores)@ == old(stores)@
                &&& final(plugin_broker)@ == old(plugin_broker)@
                &&& final(pi_broker)@ == old(pi_broker)@
                &&& match crate::shared::spec_parse_context(ev.context@) {
                    Some(ctx) => match spec_instance_at(old(stores)@, ctx) {
                        Some(i) => (r.0 matches Ok(v) && v@.len() == 2 && (v@[0]
                            matches UiNotice::WriteGlobalSettings { plugin, payload } && plugin@
                            == i.action.plugin && payload@ == ev.payload@) && (v@[1]
                            matches UiNotice::NotifyGlobalSettings {
                            plugin,
                            to_property_inspector,
                        } && plugin@ == i.action.plugin && to_property_inspector == false)),
                        None => r.0 matches Ok(v) ==> v@.len() == 0,
                    },
                    None => r.0 matches Ok(v) && v@.len() == 0,
                }
            },
            InboundEvent::GetGlobalSettings(ev) => {
                &&& final(stores)@ == old(stores)@
                &&& final(plugin_broker)@ == old(plugin_broker)@
                &&& final(pi_broker)@ == old(pi_broker)@
                &&& match crate::shared::spec_parse_context(ev.context@) {
                    Some(ctx) => match spec_instance_at(old(stores)@, ctx) {
                        Some(i) => (r.0 matches Ok(v) && v@.len() == 1 && (v@[0]
                            matches UiNotice::NotifyGlobalSettings {
                            plugin,
                            to_property_inspector,
                        } && plugin@ == i.action.plugin && to_property_inspector == true)),
                        None => r.0 matches Ok(v) ==> v@.len() == 0,
                    },
                    None => r.0 matches Ok(v) && v@.len() == 0,
                }
            },
            InboundEvent::OpenUrl(ev) => final(stores)@ == old(stores)@ && (r.0 matches Ok(v)
                && v@.len() == 1 && (v@[0] matches UiNotice::OpenUrl(u) && u@ == ev.payload.url@)),
            InboundEvent::LogMessage(ev) => final(stores)@ == old(stores)@ && (r.0 matches Ok(v)
                && v@.len() == 1 && (v@[0] matches UiNotice::Log(t) && t@ == ev.payload.message@)),
            InboundEvent::SendToPlugin(ev) => {
                &&& final(stores)@ == old(stores)@
                &&& final(pi_broker)@ == old(pi_broker)@
                &&& final(pi_deliveries)@ == old(pi_deliveries)@
                &&& match spec_instance_at(old(stores)@, ev.context@) {
                    Some(i) => {
                        &&& r.1@ matches Some(m) && (m matches OutboundMessage::Relay {
                            event: e2,
                            action,
                            context,
                            payload,
                        } && e2 == EventName::SendToPlugin && action@ == i.action.uuid && context@
                            == ev.context@ && payload@ == ev.payload@) && final(plugin_broker)@
                            == spec_send(old(plugin_broker)@, i.action.plugin, m)
                            && delivered_one(
                            old(plugin_deliveries)@,
                            final(plugin_deliveries)@,
                            old(plugin_broker)@.connected,
                            i.action.plugin,
                            m,
                        )
                        &&& (r.0 matches Ok(v) && v@.len() == 0)
                    },
                    None => final(plugin_broker)@ == old(plugin_broker)@ && final(plugin_deliveries)@ == old(plugin_deliveries)@ && (r.0 matches Ok(v) ==> v@.len() == 0),
                }
            },
            _ => final(stores)@ == old(stores)@ && final(plugin_broker)@ == old(plugin_broker)@
                && final(pi_broker)@ == old(pi_broker)@ && (r.0 matches Ok(v) && v@.len() == 0),
        },
{
    if !authorize_pi_event(&event, uuid) {
        return (Ok(Vec::new()), Ghost(None));
    }
    match event {
        InboundEvent::SetSettings(ev) => {
            let columns = device_columns(registry, ev.context.device.as_str());
            let device = ev.context.device.clone();
            let profile = ev.context.profile.clone();
            match update_instance_settings(stores, &ev.context, ev.payload) {
                Err(e) => (Err(e), Ghost(None)),
                Ok(None) => (Ok(Vec::new()), Ghost(None)),
                Ok(Some(updated)) => {
                    let gm = did_receive_settings(
                        plugin_broker,
                        plugin_deliveries,
                        &updated,
                        columns,
                        false,
                    );
                    let mut notices: Vec<UiNotice> = Vec::new();
                    notices.push(UiNotice::PersistProfile { device, profile });
                    (Ok(notices), Ghost(Some(gm@)))
                },
            }
        },
        InboundEvent::GetSettings(ev) => {
            let columns = device_columns(registry, ev.context.device.as_str());
            match stores.get_instance(&ev.context) {
                Err(e) => (Err(e), Ghost(None)),
                Ok(None) => (Ok(Vec::new()), Ghost(None)),
                Ok(Some(instance)) => {
                    proof {
                        crate::profiles::lemma_instance_at_context(old(stores)@, ev.context@);
                    }
                    let gm = did_receive_settings(pi_broker, pi_deliveries, &instance, columns, true);
                    (Ok(Vec::new()), Ghost(Some(gm@)))
                },
            }
        },
        InboundEvent::SetGlobalSettings(ev) => {
            match ActionContext::decode(ev.context.as_str()) {
                None => (Ok(Vec::new()), Ghost(None)),
                Some(ctx) => {
                    match stores.get_instance(&ctx) {
                        Err(_) => (Ok(Vec::new()), Ghost(None)),
                        Ok(None) => (Ok(Vec::new()), Ghost(None)),
                        Ok(Some(instance)) => {
                            let mut notices: Vec<UiNotice> = Vec::new();
                            notices.push(
                                UiNotice::WriteGlobalSettings {
                                    plugin: instance.action.plugin.clone(),
                                    payload: ev.payload,
                                },
                            );
                            notices.push(
                                UiNotice::NotifyGlobalSettings {
                                    plugin: instance.action.plugin,
                                    to_property_inspector: false,
                                },
                            );
                            (Ok(notices), Ghost(None))
                        },
                    }
                },
            }
        },
        InboundEvent::GetGlobalSettings(ev) => {
            match ActionContext::decode(ev.context.as_str()) {
                None => (Ok(Vec::new()), Ghost(None)),
                Some(ctx) => {
                    match stores.get_instance(&ctx) {
                        Err(_) => (Ok(Vec::new()), Ghost(None)),
                        Ok(None) => (Ok(Vec::new()), Ghost(None)),
                        Ok(Some(instance)) => {
                            let mut notices: Vec<UiNotice> = Vec::new();
                            notices.push(
                                UiNotice::NotifyGlobalSettings {
                                    plugin: instance.action.plugin,
                                    to_property_inspector: true,
                                },
                            );
                            (Ok(notices), Ghost(None))
                        },
                    }
                },
            }
        },
        InboundEvent::OpenUrl(ev) => {
            let mut notices: Vec<UiNotice> = Vec::new();
            notices.push(UiNotice::OpenUrl(ev.payload.url));
            (Ok(notices), Ghost(None))
        },
        InboundEvent::LogMessage(ev) => {
            let mut notices: Vec<UiNotice> = Vec::new();
            notices.push(UiNotice::Log(ev.payload.message));
            (Ok(notices), Ghost(None))
        },
        InboundEvent::SendToPlugin(ev) => {
            match stores.get_instance(&ev.context) {
                Err(e) => (Err(e), Ghost(None)),
                Ok(None) => (Ok(Vec::new()), Ghost(None)),
                Ok(Some(instance)) => {
                    let msg = OutboundMessage::Relay {
                        event: EventName::SendToPlugin,
                        action: instance.action.uuid.clone(),
                        context: ev.context,
                        payload: ev.payload,
                    };
                    let plugin = instance.action.plugin.clone();
                    let gm = dispatch(plugin_broker, plugin_deliveries, plugin.as_str(), msg);
                    (Ok(Vec::new()), Ghost(Some(gm@)))
                },
            }
        },
        _ => (Ok(Vec::new()), Ghost(None)),
    }
}

/// The commands a brightness push produces: for every connected device
/// whose id routes to a plugin, one `setBrightness` addressed to that
/// plugin, in registration order; built-in ids are the caller's to drive.
pub open spec fn brightness_targets(
    devs: crate::registry::DevicesV,
    ns: crate::registry::NamespacesV,
) -> Seq<(Seq<char>, Seq<char>)>
    decreases devs.len(),
{
    if devs.len() == 0 {
        Seq::empty()
    } else {
        brightness_targets(devs.drop_last(), ns) + (match spec_device_route(
            ns,
            devs.last().1.id,
        ) {
            Some(owner) => seq![(owner, devs.last().1.id)],
            None => Seq::empty(),
        })
    }
}

/// Push a brightness level to every connected device: each device whose
/// id prefix a plugin has claimed gets exactly one `setBrightness` through
/// that plugin, in registration order; built-in ids are the caller's to
/// drive directly.
pub fn set_brightness(
    broker: &mut Broker<OutboundMessage>,
    deliveries: &mut Vec<(String, OutboundMessage)>,
    namespaces: &DeviceNamespaces,
    registry: &DeviceRegistry,
    brightness: u8,
) -> (gms: Ghost<Seq<(Seq<char>, OutboundMessage)>>)
    ensures
        final(broker)@ == spec_send_seq(old(broker)@, gms@),
        deliveries_extended(
            old(deliveries)@,
            final(deliveries)@,
            old(broker)@.connected,
            gms@,
        ),
        ({
            let want = brightness_targets(registry@, namespaces@);
            &&& gms@.len() == want.len()
            &&& forall|j: int|
                0 <= j < want.len() ==> (#[trigger] gms@[j]).0 == want[j].0 && (gms@[j].1
                    matches OutboundMessage::SetBrightness { device, brightness: b } && device@
                    == want[j].1 && b == brightness)
        }),
{
    let ghost b0 = broker@;
    let ghost d0 = deliveries@;
    let ghost sent0: Seq<(Seq<char>, OutboundMessage)> = Seq::empty();
    let mut sent: Ghost<Seq<(Seq<char>, OutboundMessage)>> = Ghost(sent0);
    proof {
        lemma_deliveries_extended_empty(d0, b0.connected);
        assert(registry@.take(0) =~= Seq::<(Seq<char>, crate::registry::DeviceInfoV)>::empty());
    }
    let mut i: usize = 0;
    while i < registry.devices.len()
        invariant
            0 <= i <= registry.devices@.len(),
            registry@.len() == registry.devices@.len(),
            broker@ == spec_send_seq(b0, sent@),
            broker@.connected == b0.connected,
            deliveries_extended(d0, deliveries@, b0.connected, sent@),
            ({
                let want = brightness_targets(registry@.take(i as int), namespaces@);
                &&& sent@.len() == want.len()
                &&& forall|j: int|
                    0 <= j < want.len() ==> (#[trigger] sent@[j]).0 == want[j].0 && (sent@[j].1
                        matches OutboundMessage::SetBrightness { device, brightness: b }
                        && device@ == want[j].1 && b == brightness)
            }),
        decreases registry.devices@.len() - i,
    {
        let ghost t = registry@.take(i as int + 1);
        proof {
            assert(t.drop_last() =~= registry@.take(i as int));
            assert(t.last() == registry@[i as int]);
            assert(registry@[i as int].1 == registry.devices@[i as int].1@);
        }
        let id = registry.devices[i].1.id.clone();
        match device_route(namespaces, id.as_str()) {
            DeviceRoute::Plugin(owner) => {
                let msg = OutboundMessage::SetBrightness { device: id, brightness };
                let ghost dpre = deliveries@;
                let gm = dispatch(broker, deliveries, owner.as_str(), msg);
                proof {
                    lemma_send_seq_snoc(b0, sent@, (owner@, gm@));
                    lemma_deliveries_extended_step(
                        d0,
                        dpre,
                        deliveries@,
                        b0.connected,
                        sent@,
                        (owner@, gm@),
                    );
                }
                proof {
                    sent@ = sent@.push((owner@, gm@));
                    let want2 = brightness_targets(t, namespaces@);
                    assert(want2 =~= brightness_targets(registry@.take(i as int), namespaces@)
                        + seq![(owner@, registry@[i as int].1.id)]);
                }
            },
            _ => {
                proof {
                    let want2 = brightness_targets(t, namespaces@);
                    assert(want2 =~= brightness_targets(registry@.take(i as int), namespaces@));
                }
            },
        }
        i = i + 1;
    }
    proof {
        assert(registry@.take(registry@.len() as int) =~= registry@);
    }
    sent
}

/// The instances a profile shows: a configured plain instance speaks for
/// itself, a container for each of its children, keys then encoders in
/// slot order.
pub open spec fn slot_visible(o: Option<ActionInstanceV>) -> Seq<ActionInstanceV> {
    match o {
        None => Seq::empty(),
        Some(i) => match i.children {
            None => seq![i],
            Some(cs) => cs,
        },
    }
}

/// The visible instances across a row of slots, in slot order.
pub open spec fn slots_visible(slots: Seq<Option<ActionInstanceV>>) -> Seq<ActionInstanceV>
    decreases slots.len(),
{
    if slots.len() == 0 {
        Seq::empty()
    } else {
        slots_visible(slots.drop_last()) + slot_visible(slots.last())
    }
}

/// The visible instances of a whole profile: keys first, then encoders.
pub open spec fn profile_visible(p: crate::shared::ProfileV) -> Seq<ActionInstanceV> {
    slots_visible(p.keys) + slots_visible(p.sliders)
}

/// Whether a batch announces exactly the given instances, in order, each
/// to its own plugin with the given visibility event.
pub open spec fn visibility_batch(
    ms: Seq<(Seq<char>, OutboundMessage)>,
    targets: Seq<ActionInstanceV>,
    ev: EventName,
    columns: u8,
) -> bool {
    &&& ms.len() == targets.len()
    &&& forall|j: int|
        0 <= j < targets.len() ==> (#[trigger] ms[j]).0 == targets[j].action.plugin
            && is_instance_message(ms[j].1, ev, targets[j], columns, false)
}

/// Announce one row of slots.
fn sweep_slots(
    broker: &mut Broker<OutboundMessage>,
    deliveries: &mut Vec<(String, OutboundMessage)>,
    slots: &Vec<Option<ActionInstance>>,
    columns: u8,
    ev: EventName,
) -> (gms: Ghost<Seq<(Seq<char>, OutboundMessage)>>)
    ensures
        final(broker)@ == spec_send_seq(old(broker)@, gms@),
        final(broker)@.connected == old(broker)@.connected,
        deliveries_extended(
            old(deliveries)@,
            final(deliveries)@,
            old(broker)@.connected,
            gms@,
        ),
        visibility_batch(gms@, slots_visible(slots.deep_view()), ev, columns),
{
    let ghost b0 = broker@;
    let ghost d0 = deliveries@;
    let ghost sent0: Seq<(Seq<char>, OutboundMessage)> = Seq::empty();
    let mut sent: Ghost<Seq<(Seq<char>, OutboundMessage)>> = Ghost(sent0);
    let ghost covered0: Seq<ActionInstanceV> = Seq::empty();
    let mut covered: Ghost<Seq<ActionInstanceV>> = Ghost(covered0);
    proof {
        lemma_deliveries_extended_empty(d0, b0.connected);
        assert(slots.deep_view().take(0) =~= Seq::<Option<ActionInstanceV>>::empty());
        assert(slots_visible(slots.deep_view().take(0)) =~= Seq::<ActionInstanceV>::empty());
    }
    let mut k: usize = 0;
    while k < slots.len()
        invariant
            0 <= k <= slots@.len(),
            broker@ == spec_send_seq(b0, sent@),
            broker@.connected == b0.connected,
            deliveries_extended(d0, deliveries@, b0.connected, sent@),
            covered@ == slots_visible(slots.deep_view().take(k as int)),
            visibility_batch(sent@, covered@, ev, columns),
        decreases slots@.len() - k,
    {
        let ghost t = slots.deep_view().take(k as int + 1);
        proof {
            assert(t.drop_last() =~= slots.deep_view().take(k as int));
            assert(t.last() == slots.deep_view()[k as int]);
            assert(slots.deep_view()[k as int] == slots@[k as int].deep_view());
        }
        match &slots[k] {
            None => {
                proof {
                    assert(slots_visible(t) =~= covered@);
                }
            },
            Some(instance) => {
                match &instance.children {
                    None => {
                        let msg = make_instance_message(ev, instance, columns, false);
                        let plugin = instance.action.plugin.clone();
                        let ghost dpre = deliveries@;
                        let gm = dispatch(broker, deliveries, plugin.as_str(), msg);
                        proof {
                            lemma_send_seq_snoc(b0, sent@, (plugin@, gm@));
                            lemma_deliveries_extended_step(
                                d0,
                                dpre,
                                deliveries@,
                                b0.connected,
                                sent@,
                                (plugin@, gm@),
                            );
                        }
                        proof {
                            sent@ = sent@.push((plugin@, gm@));
                            covered@ = covered@.push(instance@);
                            assert(slots_visible(t) =~= covered@);
                        }
                    },
                    Some(cs) => {
                        let ghost base = covered@;
                        let mut j: usize = 0;
                        while j < cs.len()
                            invariant
                                0 <= j <= cs@.len(),
                                broker@ == spec_send_seq(b0, sent@),
                                broker@.connected == b0.connected,
                                deliveries_extended(d0, deliveries@, b0.connected, sent@),
                                covered@ == base + cs.deep_view().take(j as int),
                                visibility_batch(sent@, covered@, ev, columns),
                            decreases cs@.len() - j,
                        {
                            proof {
                                assert(cs.deep_view()[j as int] == cs@[j as int]@);
                            }
                            let child = child_as_instance(&cs[j]);
                            let msg = make_instance_message(ev, &child, columns, false);
                            let plugin = child.action.plugin.clone();
                            let ghost dpre = deliveries@;
                            let gm = dispatch(broker, deliveries, plugin.as_str(), msg);
                            proof {
                                lemma_send_seq_snoc(b0, sent@, (plugin@, gm@));
                                lemma_deliveries_extended_step(
                                    d0,
                                    dpre,
                                    deliveries@,
                                    b0.connected,
                                    sent@,
                                    (plugin@, gm@),
                                );
                            }
                            proof {
                                sent@ = sent@.push((plugin@, gm@));
                                covered@ = covered@.push(cs.deep_view()[j as int]);
                                assert(covered@ =~= base + cs.deep_view().take(j as int + 1));
                            }
                            j = j + 1;
                        }
                        proof {
                            assert(cs.deep_view().take(cs@.len() as int) =~= cs.deep_view());
                            assert(instance@.children == Some(cs.deep_view()));
                            assert(slot_visible(slots.deep_view()[k as int]) =~= cs.deep_view());
                            assert(slots_visible(t) =~= covered@);
                        }
                    },
                }
            },
        }
        k = k + 1;
    }
    proof {
        assert(slots.deep_view().take(slots@.len() as int) =~= slots.deep_view());
    }
    sent
}

/// Tell every plugin with something configured on a profile that its
/// instances enter or leave visibility: one event per plain instance and
/// per child of each container, keys then encoders in slot order — as on
/// a profile switch, which announces the outgoing grid gone and the
/// incoming one shown.
pub fn profile_visibility_events(
    broker: &mut Broker<OutboundMessage>,
    deliveries: &mut Vec<(String, OutboundMessage)>,
    profile: &crate::shared::Profile,
    columns: u8,
    appear: bool,
) -> (gms: Ghost<Seq<(Seq<char>, OutboundMessage)>>)
    ensures
        final(broker)@ == spec_send_seq(old(broker)@, gms@),
        deliveries_extended(
            old(deliveries)@,
            final(deliveries)@,
            old(broker)@.connected,
            gms@,
        ),
        visibility_batch(
            gms@,
            profile_visible(profile@),
            if appear {
                EventName::WillAppear
            } else {
                EventName::WillDisappear
            },
            columns,
        ),
{
    let ev = if appear {
        EventName::WillAppear
    } else {
        EventName::WillDisappear
    };
    let ghost b0 = broker@;
    let ghost d0 = deliveries@;
    let ga = sweep_slots(broker, deliveries, &profile.keys, columns, ev);
    let gb = sweep_slots(broker, deliveries, &profile.sliders, columns, ev);
    let ghost all = ga@ + gb@;
    proof {
        lemma_send_seq_concat(b0, ga@, gb@);
        lemma_deliveries_concat(d0, b0.connected, ga@, gb@, deliveries@);
        assert(visibility_batch(all, profile_visible(profile@), ev, columns)) by {
            let ta = slots_visible(profile.keys.deep_view());
            let tb = slots_visible(profile.sliders.deep_view());
            assert(profile_visible(profile@) =~= ta + tb);
            assert(all.len() == ta.len() + tb.len());
            assert forall|j: int|
                0 <= j < (ta + tb).len() implies (#[trigger] all[j]).0 == (ta + tb)[j].action.plugin
                && is_instance_message(all[j].1, ev, (ta + tb)[j], columns, false) by {
                if j < ta.len() {
                    assert(all[j] == ga@[j]);
                    assert((ta + tb)[j] == ta[j]);
                } else {
                    assert(all[j] == gb@[j - ta.len()]);
                    assert((ta + tb)[j] == tb[j - ta.len()]);
                }
            }
        }
    }
    Ghost(all)
}

/// Two extended batches in a row extend by their concatenation.
proof fn lemma_deliveries_concat(
    d0: Seq<(String, OutboundMessage)>,
    connected: Seq<Seq<char>>,
    ms: Seq<(Seq<char>, OutboundMessage)>,
    ns: Seq<(Seq<char>, OutboundMessage)>,
    d2: Seq<(String, OutboundMessage)>,
)
    requires
        exists|d1: Seq<(String, OutboundMessage)>|
            deliveries_extended(d0, d1, connected, ms) && #[trigger] deliveries_extended(
                d1,
                d2,
                connected,
                ns,
            ),
    ensures
        deliveries_extended(d0, d2, connected, ms + ns),
    decreases ns.len(),
{
    let d1 = choose|d1: Seq<(String, OutboundMessage)>|
        deliveries_extended(d0, d1, connected, ms) && #[trigger] deliveries_extended(
            d1,
            d2,
            connected,
            ns,
        );
    lemma_connected_sends_concat(connected, ms, ns);
    let wa = connected_sends(connected, ms);
    let wb = connected_sends(connected, ns);
    let want = connected_sends(connected, ms + ns);
    assert(want =~= wa + wb);
    assert forall|i: int| 0 <= i < d0.len() implies #[trigger] d2[i] == d0[i] by {
        assert(d1[i] == d1.take(d0.len() as int)[i]);
        assert(d2[i] == d2.take(d1.len() as int)[i]);
    }
    assert(d2.take(d0.len() as int) =~= d0);
    assert forall|j: int|
        0 <= j < want.len() implies (#[trigger] d2[d0.len() + j]).0@ == want[j].0 && d2[d0.len()
        + j].1 == want[j].1 by {
        if j < wa.len() {
            assert(d1[d0.len() + j].0@ == wa[j].0 && d1[d0.len() + j].1 == wa[j].1);
            assert(d2[d0.len() + j] == d2.take(d1.len() as int)[d0.len() + j]);
            assert(d2[d0.len() + j] == d1[d0.len() + j]);
            assert(want[j] == wa[j]);
        } else {
            assert(d2[d1.len() + (j - wa.len())].0@ == wb[j - wa.len()].0 && d2[d1.len() + (j
                - wa.len())].1 == wb[j - wa.len()].1);
            assert(want[j] == wb[j - wa.len()]);
        }
    }
}

/// Connected sends distribute over batch concatenation.
proof fn lemma_connected_sends_concat(
    connected: Seq<Seq<char>>,
    ms: Seq<(Seq<char>, OutboundMessage)>,
    ns: Seq<(Seq<char>, OutboundMessage)>,
)
    ensures
        connected_sends(connected, ms + ns) == connected_sends(connected, ms) + connected_sends(
            connected,
            ns,
        ),
    decreases ns.len(),
{
    if ns.len() == 0 {
        assert(ms + ns =~= ms);
        assert(connected_sends(connected, ns) =~= Seq::<(Seq<char>, OutboundMessage)>::empty());
        assert(connected_sends(connected, ms) + connected_sends(connected, ns)
            =~= connected_sends(connected, ms));
    } else {
        assert((ms + ns).drop_last() =~= ms + ns.drop_last());
        assert((ms + ns).last() == ns.last());
        lemma_connected_sends_concat(connected, ms, ns.drop_last());
        assert(connected_sends(connected, ms + ns) =~= connected_sends(connected, ms)
            + connected_sends(connected, ns));
    }
}

} // verus!




