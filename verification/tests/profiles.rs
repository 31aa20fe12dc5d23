use opendeck::instances::{create_instance, move_instance, remove_instance};
use opendeck::profiles::{DeviceStores, ProfileStores};
use opendeck::registry::DeviceInfo;
use opendeck::shared::{Action, ActionContext, ActionState, Context, Controller};

fn device_3x5() -> DeviceInfo {
    DeviceInfo {
        id: "dev1".to_owned(),
        plugin: String::new(),
        name: "Test device".to_owned(),
        rows: 3,
        columns: 5,
        encoders: 2,
        device_type: 0,
    }
}

fn device_3x3() -> DeviceInfo {
    DeviceInfo {
        id: "dev1".to_owned(),
        plugin: String::new(),
        name: "Test device".to_owned(),
        rows: 3,
        columns: 3,
        encoders: 0,
        device_type: 0,
    }
}

fn plain_action(plugin: &str, uuid: &str) -> Action {
    Action {
        name: "Counter".to_owned(),
        uuid: uuid.to_owned(),
        plugin: plugin.to_owned(),
        tooltip: String::new(),
        icon: "icon".to_owned(),
        disable_automatic_states: false,
        visible_in_action_list: true,
        supported_in_multi_actions: true,
        user_title_enabled: true,
        property_inspector: String::new(),
        controllers: vec!["Keypad".to_owned()],
        states: vec![ActionState::default()],
    }
}

fn container_action() -> Action {
    let mut a = plain_action("opendeck", "opendeck.multiaction");
    a.name = "Multi Action".to_owned();
    a
}

fn empty_lists() -> (Vec<String>, Vec<String>, Vec<String>) {
    (Vec::new(), Vec::new(), Vec::new())
}

#[test]
fn get_or_create_sizes_the_grid_to_the_device() {
    let mut stores = ProfileStores::new();
    let device = device_3x5();
    let (disk, registered, catalogue) = empty_lists();
    let created = stores.get_profile_store_mut(
        &device,
        "Default",
        None,
        &disk,
        &registered,
        &catalogue,
    );
    assert!(created);
    let profile = stores.get_profile_store(&device, "Default").expect("store exists now");
    assert_eq!(profile.keys.len(), 15);
    assert_eq!(profile.sliders.len(), 2);
    assert_eq!(profile.id, "Default");
}

#[test]
fn get_or_create_is_idempotent_and_reports_no_second_write() {
    let mut stores = ProfileStores::new();
    let device = device_3x5();
    let (disk, registered, catalogue) = empty_lists();
    let first = stores.get_profile_store_mut(
        &device,
        "Default",
        None,
        &disk,
        &registered,
        &catalogue,
    );
    assert!(first, "the first call materializes the store and writes the file");
    let second = stores.get_profile_store_mut(
        &device,
        "Default",
        None,
        &disk,
        &registered,
        &catalogue,
    );
    assert!(!second, "the second call finds the store and writes nothing");
    let profile = stores.get_profile_store(&device, "Default").expect("still there");
    assert_eq!(profile.keys.len(), 15);
}

#[test]
fn get_or_create_prunes_instances_of_missing_plugins() {
    let mut stores = ProfileStores::new();
    let device = device_3x3();
    let (mut disk, mut registered, catalogue) = empty_lists();
    disk.push("present.plugin".to_owned());
    registered.push("present.plugin".to_owned());

    // A profile loaded from disk: one instance of a plugin whose package is
    // gone, one of a plugin that is on disk and registered but whose action
    // has left the catalogue.
    let mut seeds = ProfileStores::new();
    let gone = plain_action("gone.plugin", "gone.plugin.counter");
    let stale = plain_action("present.plugin", "present.plugin.counter");
    let creation = seeds.get_profile_store_mut(
        &device,
        "Default",
        None,
        &Vec::new(),
        &Vec::new(),
        &Vec::new(),
    );
    assert!(creation);
    let slot0 = Context {
        device: "dev1".to_owned(),
        profile: "Default".to_owned(),
        controller: Controller::Keypad,
        position: 0,
    };
    let slot1 = Context { position: 1, ..clone_context(&slot0) };
    create_instance(&mut seeds, &gone, &slot0).unwrap().unwrap();
    create_instance(&mut seeds, &stale, &slot1).unwrap().unwrap();
    let loaded = clone_profile(seeds.get_profile_store(&device, "Default").unwrap());

    let created = stores.get_profile_store_mut(
        &device,
        "Default",
        Some(loaded),
        &disk,
        &registered,
        &catalogue,
    );
    assert!(created);
    let profile = stores.get_profile_store(&device, "Default").unwrap();
    assert!(profile.keys[0].is_none(), "a plugin gone from disk loses its instance");
    assert!(
        profile.keys[1].is_none(),
        "a registered plugin whose action left the catalogue loses its instance too"
    );
}

fn clone_context(c: &Context) -> Context {
    Context {
        device: c.device.clone(),
        profile: c.profile.clone(),
        controller: c.controller,
        position: c.position,
    }
}

fn clone_profile(p: &opendeck::shared::Profile) -> opendeck::shared::Profile {
    let mut keys = Vec::new();
    for slot in &p.keys {
        keys.push(slot.as_ref().map(opendeck::shared::dup_instance));
    }
    let mut sliders = Vec::new();
    for slot in &p.sliders {
        sliders.push(slot.as_ref().map(opendeck::shared::dup_instance));
    }
    opendeck::shared::Profile { id: p.id.clone(), keys, sliders }
}

#[test]
fn creating_reading_and_removing_an_instance_round_trips() {
    let mut stores = ProfileStores::new();
    let device = device_3x3();
    let (disk, registered, catalogue) = empty_lists();
    stores.get_profile_store_mut(&device, "Default", None, &disk, &registered, &catalogue);

    let action = plain_action("com.example.plugin", "com.example.plugin.counter");
    let slot = Context {
        device: "dev1".to_owned(),
        profile: "Default".to_owned(),
        controller: Controller::Keypad,
        position: 4,
    };
    let made = create_instance(&mut stores, &action, &slot)
        .expect("the slot exists")
        .expect("the empty slot accepts an instance");
    assert_eq!(made.context.position, 4);
    assert_eq!(made.context.index, 0);
    assert_eq!(made.current_state, 0);
    assert_eq!(made.settings, "{}");

    let address = ActionContext {
        device: "dev1".to_owned(),
        profile: "Default".to_owned(),
        controller: Controller::Keypad,
        position: 4,
        index: 0,
    };
    let found = stores
        .get_instance(&address)
        .expect("the slot exists")
        .expect("the instance is there");
    assert_eq!(found.action.uuid, "com.example.plugin.counter");
    assert_eq!(found.context.position, 4);

    remove_instance(&mut stores, &address).expect("the slot exists");
    let slot_after = stores.get_slot(&slot).expect("the slot exists");
    assert!(slot_after.is_none(), "removing the instance empties the slot");
}

#[test]
fn containers_stack_children_with_increasing_indices() {
    let mut stores = ProfileStores::new();
    let device = device_3x3();
    let (disk, registered, catalogue) = empty_lists();
    stores.get_profile_store_mut(&device, "Default", None, &disk, &registered, &catalogue);

    let slot = Context {
        device: "dev1".to_owned(),
        profile: "Default".to_owned(),
        controller: Controller::Keypad,
        position: 0,
    };
    create_instance(&mut stores, &container_action(), &slot).unwrap().unwrap();
    let inner = plain_action("com.example.plugin", "com.example.plugin.counter");
    let first = create_instance(&mut stores, &inner, &slot).unwrap().unwrap();
    let second = create_instance(&mut stores, &inner, &slot).unwrap().unwrap();
    assert_eq!(first.context.index, 1);
    assert_eq!(second.context.index, 2);

    let child_address = ActionContext {
        device: "dev1".to_owned(),
        profile: "Default".to_owned(),
        controller: Controller::Keypad,
        position: 0,
        index: 1,
    };
    let child = stores.get_instance(&child_address).unwrap().unwrap();
    assert_eq!(child.context.index, 1);
    remove_instance(&mut stores, &child_address).unwrap();
    let container_address = ActionContext { index: 0, ..child_address };
    let container = stores.get_instance(&container_address).unwrap().unwrap();
    assert_eq!(container.children.as_ref().unwrap().len(), 1);
    assert_eq!(container.children.as_ref().unwrap()[0].context.index, 2);
}

#[test]
fn removing_a_plugin_clears_every_store_and_names_each_once() {
    let mut stores = ProfileStores::new();
    let (disk, registered, catalogue) = empty_lists();
    let dev_a = device_3x3();
    let dev_b = DeviceInfo { id: "dev2".to_owned(), ..device_3x3() };
    stores.get_profile_store_mut(&dev_a, "Default", None, &disk, &registered, &catalogue);
    stores.get_profile_store_mut(&dev_b, "Default", None, &disk, &registered, &catalogue);

    let target = plain_action("victim.plugin", "victim.plugin.counter");
    let other = plain_action("other.plugin", "other.plugin.counter");
    let slot_a0 = Context {
        device: "dev1".to_owned(),
        profile: "Default".to_owned(),
        controller: Controller::Keypad,
        position: 0,
    };
    let slot_a1 = Context { position: 1, ..clone_context(&slot_a0) };
    let slot_b0 = Context { device: "dev2".to_owned(), ..clone_context(&slot_a0) };
    create_instance(&mut stores, &target, &slot_a0).unwrap().unwrap();
    create_instance(&mut stores, &other, &slot_a1).unwrap().unwrap();
    // A child of the victim inside a container on the second device.
    create_instance(&mut stores, &container_action(), &slot_b0).unwrap().unwrap();
    create_instance(&mut stores, &target, &slot_b0).unwrap().unwrap();

    assert_eq!(stores.all_from_plugin("victim.plugin").len(), 2);

    let saved = stores.remove_plugin_instances("victim.plugin");
    assert_eq!(saved.len(), 2, "each affected profile is persisted exactly once");
    assert!(saved.contains(&"dev1/Default".to_owned()));
    assert!(saved.contains(&"dev2/Default".to_owned()));

    assert!(stores.all_from_plugin("victim.plugin").is_empty());
    assert_eq!(stores.all_from_plugin("other.plugin").len(), 1, "other plugins keep theirs");
    let container = stores
        .get_instance(
            &ActionContext {
                device: "dev2".to_owned(),
                profile: "Default".to_owned(),
                controller: Controller::Keypad,
                position: 0,
                index: 0,
            },
        )
        .unwrap()
        .unwrap();
    assert_eq!(container.children.as_ref().unwrap().len(), 0, "the child left its container");

    let saved_again = stores.remove_plugin_instances("victim.plugin");
    assert!(saved_again.is_empty(), "nothing is persisted when nothing changed");
}

#[test]
fn selected_profile_falls_back_to_an_existing_one() {
    let mut devices = DeviceStores::new();
    let all = vec!["Default".to_owned(), "work".to_owned()];
    let (selected, created) = devices.get_selected_profile("dev1", &all);
    assert!(created, "a first lookup creates the configuration");
    assert_eq!(selected, "Default");

    devices.set_selected_profile("dev1", "work".to_owned());
    let (selected2, created2) = devices.get_selected_profile("dev1", &all);
    assert!(!created2);
    assert_eq!(selected2, "work");

    let only_default = vec!["Default".to_owned()];
    let (selected3, _) = devices.get_selected_profile("dev1", &only_default);
    assert_eq!(selected3, "Default", "a vanished profile falls back to the first on disk");
}

#[test]
fn moving_a_slot_relocates_the_instance_and_empties_the_source() {
    let mut stores = ProfileStores::new();
    let device = device_3x3();
    let (disk, registered, catalogue) = empty_lists();
    stores.get_profile_store_mut(&device, "Default", None, &disk, &registered, &catalogue);

    let action = plain_action("com.example.plugin", "com.example.plugin.counter");
    let source = Context {
        device: "dev1".to_owned(),
        profile: "Default".to_owned(),
        controller: Controller::Keypad,
        position: 2,
    };
    let destination = Context { position: 7, ..clone_context(&source) };
    create_instance(&mut stores, &action, &source).unwrap().unwrap();

    let moved = move_instance(&mut stores, &source, &destination, false, "/images/old", "/images/new")
        .expect("both slots exist")
        .expect("the destination was free");
    assert_eq!(moved.context.position, 7);
    assert_eq!(moved.context.index, 0);
    assert!(stores.get_slot(&source).unwrap().is_none(), "the source empties");
    let landed = stores
        .get_instance(&ActionContext {
            device: "dev1".to_owned(),
            profile: "Default".to_owned(),
            controller: Controller::Keypad,
            position: 7,
            index: 0,
        })
        .unwrap()
        .unwrap();
    assert_eq!(landed.action.uuid, "com.example.plugin.counter");

    let back = move_instance(&mut stores, &source, &destination, false, "/images/old", "/images/new")
        .expect("both slots exist");
    assert!(back.is_none(), "an empty source moves nothing");
    create_instance(&mut stores, &action, &source).unwrap().unwrap();
    let blocked =
        move_instance(&mut stores, &source, &destination, false, "/images/old", "/images/new")
            .expect("both slots exist");
    assert!(blocked.is_none(), "an occupied destination refuses the move");
}

#[test]
fn moving_rewrites_externalized_image_paths() {
    let mut stores = ProfileStores::new();
    let device = device_3x3();
    let (disk, registered, catalogue) = empty_lists();
    stores.get_profile_store_mut(&device, "Default", None, &disk, &registered, &catalogue);
    let mut action = plain_action("com.example.plugin", "com.example.plugin.counter");
    action.states[0].image = "/images/old/0.png".to_owned();
    let source = Context {
        device: "dev1".to_owned(),
        profile: "Default".to_owned(),
        controller: Controller::Keypad,
        position: 0,
    };
    let destination = Context { position: 1, ..clone_context(&source) };
    let made = create_instance(&mut stores, &action, &source).unwrap().unwrap();
    assert_eq!(made.states[0].image, "/images/old/0.png");
    let moved = move_instance(&mut stores, &source, &destination, true, "/images/old", "/images/new")
        .unwrap()
        .unwrap();
    assert_eq!(
        moved.states[0].image, "/images/new/0.png",
        "a state image under the old directory follows to the new one"
    );
    assert!(
        stores.get_slot(&source).unwrap().is_some(),
        "a retained move keeps the source configured"
    );
}
