use opendeck::broker::Broker;
use opendeck::instances::create_instance;
use opendeck::messages::{
    ContextAndPayloadEvent, EventName, InboundEvent, OutboundMessage,
};
use opendeck::profiles::ProfileStores;
use opendeck::registry::{
    registration_allowed, DeviceInfo, DeviceNamespaces, DeviceRegistry,
};
use opendeck::router::{
    device_route, dial_rotate, key_down, key_up, process_plugin_event, update_image, DeviceRoute,
};
use opendeck::shared::{Action, ActionContext, ActionState, Context, Controller};

fn rdevice() -> DeviceInfo {
    DeviceInfo {
        id: "dev1".to_owned(),
        plugin: String::new(),
        name: "Test device".to_owned(),
        rows: 3,
        columns: 3,
        encoders: 2,
        device_type: 0,
    }
}

fn raction(plugin: &str, uuid: &str, states: usize, disable_auto: bool) -> Action {
    let mut state_list = Vec::new();
    for _ in 0..states {
        state_list.push(ActionState::default());
    }
    Action {
        name: "Counter".to_owned(),
        uuid: uuid.to_owned(),
        plugin: plugin.to_owned(),
        tooltip: String::new(),
        icon: "icon".to_owned(),
        disable_automatic_states: disable_auto,
        visible_in_action_list: true,
        supported_in_multi_actions: true,
        user_title_enabled: true,
        property_inspector: String::new(),
        controllers: vec!["Keypad".to_owned(), "Encoder".to_owned()],
        states: state_list,
    }
}

fn seeded_stores(action: &Action, position: u8) -> (ProfileStores, ActionContext) {
    let mut stores = ProfileStores::new();
    let device = rdevice();
    let empty: Vec<String> = Vec::new();
    stores.get_profile_store_mut(&device, "Default", None, &empty, &empty, &empty);
    let slot = Context {
        device: "dev1".to_owned(),
        profile: "Default".to_owned(),
        controller: Controller::Keypad,
        position,
    };
    create_instance(&mut stores, action, &slot).unwrap().unwrap();
    let address = ActionContext {
        device: "dev1".to_owned(),
        profile: "Default".to_owned(),
        controller: Controller::Keypad,
        position,
        index: 0,
    };
    (stores, address)
}

fn current_state_at(stores: &ProfileStores, address: &ActionContext) -> u16 {
    stores.get_instance(address).unwrap().unwrap().current_state
}

#[test]
fn key_up_flips_a_two_state_instance_back_and_forth() {
    let action = raction("com.example.plugin", "com.example.plugin.toggle", 2, false);
    let (mut stores, address) = seeded_stores(&action, 4);
    let mut broker: Broker<OutboundMessage> = Broker::new();
    let mut deliveries = Vec::new();
    let device = rdevice();

    let (r, _) = key_up(&mut stores, &mut broker, &mut deliveries, &device, "Default", 4);
    assert_eq!(r.unwrap(), true, "a configured slot asks for a save");
    assert_eq!(current_state_at(&stores, &address), 1, "state zero flips to one");

    let (r2, _) = key_up(&mut stores, &mut broker, &mut deliveries, &device, "Default", 4);
    r2.unwrap();
    assert_eq!(current_state_at(&stores, &address), 0, "the next press flips back");
}

#[test]
fn key_up_never_flips_three_state_or_disabled_instances() {
    let three = raction("com.example.plugin", "com.example.plugin.three", 3, false);
    let (mut stores, address) = seeded_stores(&three, 1);
    let mut broker: Broker<OutboundMessage> = Broker::new();
    let mut deliveries = Vec::new();
    let device = rdevice();
    key_up(&mut stores, &mut broker, &mut deliveries, &device, "Default", 1).0.unwrap();
    assert_eq!(current_state_at(&stores, &address), 0, "three states never auto-flip");

    let disabled = raction("com.example.plugin", "com.example.plugin.manual", 2, true);
    let (mut stores2, address2) = seeded_stores(&disabled, 2);
    key_up(&mut stores2, &mut broker, &mut deliveries, &device, "Default", 2).0.unwrap();
    assert_eq!(
        current_state_at(&stores2, &address2),
        0,
        "automatic advance disabled never flips"
    );
}

#[test]
fn key_events_queue_for_the_owning_plugin() {
    let action = raction("com.example.plugin", "com.example.plugin.toggle", 2, false);
    let (mut stores, _) = seeded_stores(&action, 4);
    let mut broker: Broker<OutboundMessage> = Broker::new();
    let mut deliveries = Vec::new();
    let device = rdevice();

    key_down(&mut stores, &mut broker, &mut deliveries, &device, "Default", 4).0.unwrap();
    key_up(&mut stores, &mut broker, &mut deliveries, &device, "Default", 4).0.unwrap();
    assert!(deliveries.is_empty(), "nothing is connected, so nothing goes to the wire");

    let flushed = broker.register("com.example.plugin".to_owned());
    assert_eq!(flushed.len(), 2, "both events waited in the plugin's queue");
    match &flushed[0] {
        OutboundMessage::Instance { event, action, context, device, payload } => {
            assert!(matches!(event, EventName::KeyDown));
            assert_eq!(action, "com.example.plugin.toggle");
            assert_eq!(context.position, 4);
            assert_eq!(device, "dev1");
            assert_eq!(payload.coordinates.row, 1, "position four on three columns");
            assert_eq!(payload.coordinates.column, 1);
            assert_eq!(payload.state, 0, "key down does not advance");
            assert!(!payload.is_in_multi_action);
        }
        _ => panic!("the first queued frame is the key press"),
    }
    match &flushed[1] {
        OutboundMessage::Instance { event, payload, .. } => {
            assert!(matches!(event, EventName::KeyUp));
            assert_eq!(payload.state, 1, "key up carries the advanced state");
        }
        _ => panic!("the second queued frame is the key release"),
    }
}

#[test]
fn queued_messages_flush_in_send_order_on_registration() {
    let mut broker: Broker<OutboundMessage> = Broker::new();
    let m1 = OutboundMessage::DeviceDidDisconnect { device: "one".to_owned() };
    let m2 = OutboundMessage::DeviceDidDisconnect { device: "two".to_owned() };
    let m3 = OutboundMessage::DeviceDidDisconnect { device: "three".to_owned() };
    assert!(broker.send("p", m1).is_none(), "no connection yet, so it queues");
    assert!(broker.send("p", m2).is_none());
    assert!(broker.send("q", m3).is_none(), "another identity queues separately");

    let flushed = broker.register("p".to_owned());
    let names: Vec<&str> = flushed
        .iter()
        .map(|m| match m {
            OutboundMessage::DeviceDidDisconnect { device } => device.as_str(),
            _ => panic!("unexpected frame"),
        })
        .collect();
    assert_eq!(names, ["one", "two"], "the queue flushes whole, oldest first");

    let m4 = OutboundMessage::DeviceDidDisconnect { device: "four".to_owned() };
    match broker.send("p", m4) {
        Some(OutboundMessage::DeviceDidDisconnect { device }) => assert_eq!(device, "four"),
        _ => panic!("a registered identity gets messages on the wire"),
    }
    assert!(broker.register("q".to_owned()).len() == 1, "the other queue was untouched");

    broker.disconnect("p");
    let m5 = OutboundMessage::DeviceDidDisconnect { device: "five".to_owned() };
    assert!(broker.send("p", m5).is_none(), "after a disconnect, sends queue again");
}

#[test]
fn multi_action_playback_presses_each_child_in_turn() {
    let container = {
        let mut a = raction("opendeck", "opendeck.multiaction", 1, false);
        a.name = "Multi Action".to_owned();
        a
    };
    let child_action = raction("com.example.plugin", "com.example.plugin.toggle", 2, false);
    let (mut stores, address) = seeded_stores(&container, 0);
    let slot = Context {
        device: "dev1".to_owned(),
        profile: "Default".to_owned(),
        controller: Controller::Keypad,
        position: 0,
    };
    create_instance(&mut stores, &child_action, &slot).unwrap().unwrap();
    create_instance(&mut stores, &child_action, &slot).unwrap().unwrap();

    let mut broker: Broker<OutboundMessage> = Broker::new();
    let mut deliveries = Vec::new();
    let device = rdevice();
    let (r, _) = key_down(&mut stores, &mut broker, &mut deliveries, &device, "Default", 0);
    assert_eq!(r.unwrap(), true, "playback changes child states, so a save is due");

    let flushed = broker.register("com.example.plugin".to_owned());
    assert_eq!(flushed.len(), 4, "each child hears a press and a release");
    for (i, frame) in flushed.iter().enumerate() {
        match frame {
            OutboundMessage::Instance { event, payload, context, .. } => {
                if i % 2 == 0 {
                    assert!(matches!(event, EventName::KeyDown));
                    assert_eq!(payload.state, 0);
                } else {
                    assert!(matches!(event, EventName::KeyUp));
                    assert_eq!(payload.state, 1, "the release reflects the advanced state");
                }
                assert_eq!(context.index as usize, i / 2 + 1);
                assert!(payload.is_in_multi_action);
            }
            _ => panic!("playback sends instance events"),
        }
    }
    let container_after = stores.get_instance(&address).unwrap().unwrap();
    for child in container_after.children.as_ref().unwrap() {
        assert_eq!(child.current_state, 1, "every child advanced once");
    }
}

#[test]
fn dial_rotate_reaches_the_encoder_instance() {
    let action = raction("com.example.plugin", "com.example.plugin.dial", 1, false);
    let mut stores = ProfileStores::new();
    let device = rdevice();
    let empty: Vec<String> = Vec::new();
    stores.get_profile_store_mut(&device, "Default", None, &empty, &empty, &empty);
    let slot = Context {
        device: "dev1".to_owned(),
        profile: "Default".to_owned(),
        controller: Controller::Encoder,
        position: 1,
    };
    create_instance(&mut stores, &action, &slot).unwrap().unwrap();

    let mut broker: Broker<OutboundMessage> = Broker::new();
    let mut deliveries = Vec::new();
    dial_rotate(&stores, &mut broker, &mut deliveries, &device, "Default", 1, -3).0.unwrap();
    let flushed = broker.register("com.example.plugin".to_owned());
    assert_eq!(flushed.len(), 1);
    match &flushed[0] {
        OutboundMessage::DialRotate { ticks, pressed, coordinates, .. } => {
            assert_eq!(*ticks, -3);
            assert!(!pressed);
            assert_eq!(coordinates.row, 0);
            assert_eq!(coordinates.column, 1);
        }
        _ => panic!("a dial turn sends dialRotate"),
    }
}

#[test]
fn settings_from_a_foreign_plugin_identity_are_rejected() {
    let action = raction("plugin.a", "plugin.a.counter", 1, false);
    let (mut stores, address) = seeded_stores(&action, 4);
    let registry = DeviceRegistry::new();
    let mut plugin_broker: Broker<OutboundMessage> = Broker::new();
    let mut pi_broker: Broker<OutboundMessage> = Broker::new();
    let mut pd = Vec::new();
    let mut id = Vec::new();

    let event = InboundEvent::SetSettings(ContextAndPayloadEvent {
        context: ActionContext {
            device: address.device.clone(),
            profile: address.profile.clone(),
            controller: address.controller,
            position: address.position,
            index: address.index,
        },
        payload: "{\"volume\":11}".to_owned(),
    });
    let notices = process_plugin_event(
        &mut stores,
        &registry,
        &mut plugin_broker,
        &mut pi_broker,
        &mut pd,
        &mut id,
        event,
        "plugin.b",
    )
    .0
    .unwrap();
    assert!(notices.is_empty(), "a rejected event asks the shell for nothing");
    assert_eq!(
        stores.get_instance(&address).unwrap().unwrap().settings,
        "{}",
        "the settings of plugin a's instance are untouched"
    );

    let event2 = InboundEvent::SetSettings(ContextAndPayloadEvent {
        context: ActionContext {
            device: address.device.clone(),
            profile: address.profile.clone(),
            controller: address.controller,
            position: address.position,
            index: address.index,
        },
        payload: "{\"volume\":11}".to_owned(),
    });
    let notices2 = process_plugin_event(
        &mut stores,
        &registry,
        &mut plugin_broker,
        &mut pi_broker,
        &mut pd,
        &mut id,
        event2,
        "plugin.a",
    )
    .0
    .unwrap();
    assert_eq!(notices2.len(), 1);
    match &notices2[0] {
        opendeck::router::UiNotice::PersistProfile { device, profile } => {
            assert_eq!(device, "dev1");
            assert_eq!(profile, "Default");
        }
        _ => panic!("the owner's change asks for exactly one persistence"),
    }
    assert_eq!(
        stores.get_instance(&address).unwrap().unwrap().settings,
        "{\"volume\":11}",
        "the owner may change its own instance"
    );
}

#[test]
fn device_registration_respects_namespaces() {
    let mut namespaces = DeviceNamespaces::new();
    namespaces.claim("pk".to_owned(), "com.example.driver".to_owned());

    assert!(registration_allowed(&namespaces, "", "sd-123"), "the hub itself always may");
    assert!(registration_allowed(&namespaces, "com.example.driver", "pk-123"));
    assert!(
        !registration_allowed(&namespaces, "com.example.other", "pk-123"),
        "a foreign plugin may not register under a claimed prefix"
    );
    assert!(!registration_allowed(&namespaces, "com.example.driver", "sd-99"));
    assert!(!registration_allowed(&namespaces, "com.example.driver", "x"));
}

#[test]
fn device_commands_route_by_namespace_prefix() {
    let mut namespaces = DeviceNamespaces::new();
    namespaces.claim("pk".to_owned(), "com.example.driver".to_owned());

    match device_route(&namespaces, "pk-007") {
        DeviceRoute::Plugin(p) => assert_eq!(p, "com.example.driver"),
        _ => panic!("a claimed prefix routes to its plugin"),
    }
    assert!(matches!(device_route(&namespaces, "sd-007"), DeviceRoute::Builtin));
    assert!(matches!(device_route(&namespaces, "zz-007"), DeviceRoute::Unrouted));

    let mut broker: Broker<OutboundMessage> = Broker::new();
    let mut deliveries = Vec::new();
    let (route, _) = update_image(
        &mut broker,
        &mut deliveries,
        &namespaces,
        "pk-007".to_owned(),
        3,
        Some("data:image/png;base64,AAAA".to_owned()),
    );
    assert!(matches!(route, DeviceRoute::Plugin(_)));
    let flushed = broker.register("com.example.driver".to_owned());
    match &flushed[0] {
        OutboundMessage::SetImage { device, position, image } => {
            assert_eq!(device, "pk-007");
            assert_eq!(*position, Some(3));
            assert!(image.is_some());
        }
        _ => panic!("a namespaced device's image command goes to its plugin"),
    }
}

#[test]
fn title_changes_notify_the_plugin_with_the_styled_state() {
    let mut action = raction("com.example.plugin", "com.example.plugin.note", 2, true);
    action.states[1].text = "hello".to_owned();
    action.states[1].size = "22".to_owned();
    action.states[1].underline = true;
    let (stores, address) = seeded_stores(&action, 3);
    let instance = stores.get_instance(&address).unwrap().unwrap();

    let mut broker: Broker<OutboundMessage> = Broker::new();
    let mut deliveries = Vec::new();
    let (r, _) = opendeck::router::title_parameters_did_change(
        &mut broker,
        &mut deliveries,
        &instance,
        3,
        1,
    );
    r.unwrap();
    let flushed = broker.register("com.example.plugin".to_owned());
    match &flushed[0] {
        OutboundMessage::TitleParametersDidChange { title, title_parameters, .. } => {
            assert_eq!(title, "hello");
            assert_eq!(title_parameters.font_size, "22");
            assert!(title_parameters.font_underline);
        }
        _ => panic!("a state change sends titleParametersDidChange"),
    }

    let (bad, _) = opendeck::router::title_parameters_did_change(
        &mut broker,
        &mut deliveries,
        &instance,
        3,
        9,
    );
    assert!(bad.is_err(), "an out-of-range state index is refused");
}

#[test]
fn brightness_broadcasts_to_namespaced_devices_only() {
    let mut namespaces = DeviceNamespaces::new();
    namespaces.claim("pk".to_owned(), "com.example.driver".to_owned());
    let mut registry = DeviceRegistry::new();
    registry.insert(DeviceInfo { id: "pk-007".to_owned(), ..rdevice() });
    registry.insert(DeviceInfo { id: "sd-001".to_owned(), ..rdevice() });

    let mut broker: Broker<OutboundMessage> = Broker::new();
    let mut deliveries = Vec::new();
    opendeck::router::set_brightness(&mut broker, &mut deliveries, &namespaces, &registry, 80);
    let flushed = broker.register("com.example.driver".to_owned());
    assert_eq!(flushed.len(), 1, "only the namespaced device's plugin hears it");
    match &flushed[0] {
        OutboundMessage::SetBrightness { device, brightness } => {
            assert_eq!(device, "pk-007");
            assert_eq!(*brightness, 80);
        }
        _ => panic!("the broadcast sends setBrightness"),
    }
}

#[test]
fn settings_reads_notify_the_asking_side_only() {
    let action = raction("plugin.a", "plugin.a.counter", 1, false);
    let (mut stores, address) = seeded_stores(&action, 4);
    let registry = DeviceRegistry::new();
    let mut plugin_broker: Broker<OutboundMessage> = Broker::new();
    let mut pi_broker: Broker<OutboundMessage> = Broker::new();
    let mut pd = Vec::new();
    let mut id = Vec::new();

    let event = InboundEvent::GetSettings(opendeck::messages::ContextEvent {
        context: ActionContext {
            device: address.device.clone(),
            profile: address.profile.clone(),
            controller: address.controller,
            position: address.position,
            index: address.index,
        },
    });
    process_plugin_event(
        &mut stores,
        &registry,
        &mut plugin_broker,
        &mut pi_broker,
        &mut pd,
        &mut id,
        event,
        "plugin.a",
    )
    .0
    .unwrap();
    let to_plugin = plugin_broker.register("plugin.a".to_owned());
    assert_eq!(to_plugin.len(), 1, "the asking plugin hears didReceiveSettings");
    assert!(
        pi_broker.register(address.encode()).is_empty(),
        "the inspector was not the asker and hears nothing"
    );
    assert_eq!(plugin_broker.registered_ids(), ["plugin.a"]);
}

#[test]
fn inspectors_may_only_speak_for_their_own_instance() {
    let action = raction("plugin.a", "plugin.a.counter", 1, false);
    let (mut stores, address) = seeded_stores(&action, 4);
    let registry = DeviceRegistry::new();
    let mut plugin_broker: Broker<OutboundMessage> = Broker::new();
    let mut pi_broker: Broker<OutboundMessage> = Broker::new();
    let mut pd = Vec::new();
    let mut id = Vec::new();

    let foreign = ActionContext {
        device: address.device.clone(),
        profile: address.profile.clone(),
        controller: address.controller,
        position: 8,
        index: 0,
    };
    let event = InboundEvent::SetSettings(ContextAndPayloadEvent {
        context: foreign,
        payload: "{\"x\":1}".to_owned(),
    });
    let notices = opendeck::router::process_pi_event(
        &mut stores,
        &registry,
        &mut plugin_broker,
        &mut pi_broker,
        &mut pd,
        &mut id,
        event,
        &address.encode(),
    )
    .0
    .unwrap();
    assert!(notices.is_empty(), "an inspector naming another slot is refused");
    assert_eq!(
        stores.get_instance(&address).unwrap().unwrap().settings,
        "{}",
        "nothing changed anywhere"
    );
}

#[test]
fn a_profile_switch_announces_every_visible_instance() {
    let container = {
        let mut a = raction("opendeck", "opendeck.multiaction", 1, false);
        a.name = "Multi Action".to_owned();
        a
    };
    let child_action = raction("com.example.plugin", "com.example.plugin.toggle", 2, false);
    let plain = raction("com.example.plugin", "com.example.plugin.note", 1, false);
    let (mut stores, _) = seeded_stores(&container, 0);
    let slot = Context {
        device: "dev1".to_owned(),
        profile: "Default".to_owned(),
        controller: Controller::Keypad,
        position: 0,
    };
    create_instance(&mut stores, &child_action, &slot).unwrap().unwrap();
    create_instance(&mut stores, &child_action, &slot).unwrap().unwrap();
    let slot2 = Context { position: 5, ..slot };
    create_instance(&mut stores, &plain, &slot2).unwrap().unwrap();

    let device = rdevice();
    let profile = stores.get_profile_store(&device, "Default").unwrap();
    let mut broker: Broker<OutboundMessage> = Broker::new();
    let mut deliveries = Vec::new();
    opendeck::router::profile_visibility_events(&mut broker, &mut deliveries, profile, 3, false);
    let flushed = broker.register("com.example.plugin".to_owned());
    assert_eq!(
        flushed.len(),
        3,
        "two container children and one plain instance leave visibility"
    );
    for frame in &flushed {
        match frame {
            OutboundMessage::Instance { event, .. } => {
                assert!(matches!(event, EventName::WillDisappear));
            }
            _ => panic!("visibility sweeps send instance events"),
        }
    }
}
