use opendeck::disk::{
    disk_to_profile, externalize_state_image, migrate_v1_profile, profile_to_disk,
    relabel_profile, DiskActionContext, DiskActionInstance, DiskProfile, ImagePayload,
    LegacyInstance, ProfileV1,
};
use opendeck::errors::ErrorKind;
use opendeck::instances::create_instance;
use opendeck::manifest::{
    font_replacement, prepare_action, registration_args, resolve_launch, should_replace_builtin,
    Categories, LaunchMode, PluginManifest, OS,
};
use opendeck::manifest::{PluginInstanceKind, PluginInstances};
use opendeck::profiles::ProfileStores;
use opendeck::registry::DeviceInfo;
use opendeck::settings::Settings;
use opendeck::shared::{Action, ActionContext, ActionState, Context, Controller};

fn maction(plugin: &str, uuid: &str) -> Action {
    Action {
        name: "Counter".to_owned(),
        uuid: uuid.to_owned(),
        plugin: plugin.to_owned(),
        tooltip: String::new(),
        icon: "images/icon".to_owned(),
        disable_automatic_states: false,
        visible_in_action_list: true,
        supported_in_multi_actions: true,
        user_title_enabled: true,
        property_inspector: String::new(),
        controllers: vec!["Keypad".to_owned()],
        states: vec![ActionState::default()],
    }
}

fn base_manifest() -> PluginManifest {
    PluginManifest {
        name: "Example".to_owned(),
        author: "Somebody".to_owned(),
        version: "1.2.3".to_owned(),
        icon: "icon".to_owned(),
        category: "Custom".to_owned(),
        actions: vec![maction("", "com.example.counter")],
        os: Vec::new(),
        code_path: None,
        code_path_windows: None,
        code_path_macos: None,
        code_path_linux: None,
        property_inspector_path: None,
        device_namespace: None,
    }
}

#[test]
fn launch_resolution_picks_the_native_entry() {
    let mut m = base_manifest();
    m.os.push(OS { platform: "linux".to_owned() });
    m.code_path = Some("plugin.html".to_owned());
    let plan = resolve_launch(&m, "linux").unwrap();
    assert_eq!(plan.code_path, "plugin.html");
    assert!(matches!(plan.mode, LaunchMode::Webview));

    m.code_path_linux = Some("plugin.js".to_owned());
    let plan2 = resolve_launch(&m, "linux").unwrap();
    assert_eq!(plan2.code_path, "plugin.js", "a platform override wins over the generic path");
    assert!(matches!(plan2.mode, LaunchMode::Node));
}

#[test]
fn launch_resolution_falls_back_to_the_compatibility_layer() {
    let mut m = base_manifest();
    m.os.push(OS { platform: "windows".to_owned() });
    m.code_path_windows = Some("plugin.exe".to_owned());
    let plan = resolve_launch(&m, "linux").unwrap();
    assert_eq!(plan.code_path, "plugin.exe");
    assert!(matches!(plan.mode, LaunchMode::Wine));

    let mut native = base_manifest();
    native.os.push(OS { platform: "linux".to_owned() });
    native.code_path = Some("plugin".to_owned());
    let plan2 = resolve_launch(&native, "linux").unwrap();
    assert!(matches!(plan2.mode, LaunchMode::Native));
}

#[test]
fn launch_resolution_rejects_unsupported_platforms() {
    let mut m = base_manifest();
    m.os.push(OS { platform: "mac".to_owned() });
    m.code_path = Some("plugin".to_owned());
    let e = resolve_launch(&m, "linux").unwrap_err();
    assert!(matches!(e.kind, ErrorKind::Unsupported));

    let mut pathless = base_manifest();
    pathless.os.push(OS { platform: "linux".to_owned() });
    let e2 = resolve_launch(&pathless, "linux").unwrap_err();
    assert!(matches!(e2.kind, ErrorKind::Unsupported));
}

#[test]
fn builtin_upgrade_compares_real_versions() {
    assert!(should_replace_builtin("2.0.0", None), "nothing installed means install");
    assert!(should_replace_builtin("2.0.0", Some("1.9.9")));
    assert!(!should_replace_builtin("1.0.0", Some("1.0.0")));
    assert!(!should_replace_builtin("1.0.0", Some("1.0.1")));
    assert!(should_replace_builtin("1.0.0", Some("not a version")));
    assert!(!should_replace_builtin("not a version", Some("1.0.0")));
    assert!(should_replace_builtin("1.10.0", Some("1.9.0")), "numeric, not textual, ordering");
}

#[test]
fn font_families_map_to_bundled_equivalents() {
    assert_eq!(font_replacement("Arial"), Some("Liberation Sans"));
    assert_eq!(font_replacement("  tahoma  "), Some("Open Sans"));
    assert_eq!(font_replacement("TREBUCHET MS"), Some("Fira Sans"));
    assert_eq!(font_replacement("Liberation Sans"), None);
    assert_eq!(font_replacement("Courier New"), None, "only the listed families map");
}

#[test]
fn preparing_an_action_stamps_and_resolves() {
    let mut a = maction("", "com.example.counter");
    a.states[0].family = "Impact".to_owned();
    a.states.push(ActionState { image: "images/second".to_owned(), ..ActionState::default() });
    let prepared = prepare_action(
        &a,
        "com.example",
        "/plugins/com.example",
        &Some("pi/index.html".to_owned()),
    );
    assert_eq!(prepared.plugin, "com.example");
    assert_eq!(prepared.uuid, "com.example.counter");
    assert_eq!(
        prepared.icon, "/plugins/com.example/images/icon.png",
        "with nothing on disk the plain png path is the fallback"
    );
    assert_eq!(prepared.property_inspector, "/plugins/com.example/pi/index.html");
    assert_eq!(
        prepared.states[0].image, prepared.icon,
        "the placeholder image takes the action's icon"
    );
    assert_eq!(prepared.states[0].family, "Anton");
    assert_eq!(prepared.states[1].image, "/plugins/com.example/images/second.png");
}

#[test]
fn the_catalogue_replaces_actions_by_id_and_forgets_removed_plugins() {
    let mut cats = Categories::new();
    cats.register_actions("Custom".to_owned(), vec![maction("p1", "p1.a"), maction("p2", "p2.b")]);
    cats.register_actions("Custom".to_owned(), vec![maction("p1", "p1.a")]);
    let uuids = cats.action_uuids();
    assert_eq!(uuids, ["p2.b", "p1.a"], "a reloaded action moves to the end, once");

    cats.register_actions("Other".to_owned(), vec![maction("p2", "p2.c")]);
    cats.remove_plugin("p2");
    let uuids2 = cats.action_uuids();
    assert_eq!(uuids2, ["p1.a"], "a removed plugin's actions leave, empty categories too");
}

#[test]
fn registration_arguments_follow_the_contract() {
    let args = registration_args("57116", "com.example", "{}".to_owned());
    assert_eq!(
        args,
        ["-port", "57116", "-pluginUUID", "com.example", "-registerEvent", "registerPlugin", "-info", "{}"]
    );
}

#[test]
fn profiles_round_trip_through_their_disk_shape() {
    let mut stores = ProfileStores::new();
    let device = DeviceInfo {
        id: "dev1".to_owned(),
        plugin: String::new(),
        name: "Test device".to_owned(),
        rows: 2,
        columns: 2,
        encoders: 1,
        device_type: 0,
    };
    let empty: Vec<String> = Vec::new();
    stores.get_profile_store_mut(&device, "Default", None, &empty, &empty, &empty);
    let slot = Context {
        device: "dev1".to_owned(),
        profile: "Default".to_owned(),
        controller: Controller::Keypad,
        position: 0,
    };
    let mut container = maction("opendeck", "opendeck.multiaction");
    container.name = "Multi Action".to_owned();
    create_instance(&mut stores, &container, &slot).unwrap().unwrap();
    create_instance(&mut stores, &maction("p1", "p1.a"), &slot).unwrap().unwrap();
    let slot2 = Context { position: 1, ..slot };
    create_instance(&mut stores, &maction("p2", "p2.b"), &slot2).unwrap().unwrap();

    let original = stores.get_profile_store(&device, "Default").unwrap();
    let disk = profile_to_disk(original);
    let back = disk_to_profile(&disk, "dev1", "Default", "/cfg/images/dev1/Default");

    assert_eq!(back.id, original.id);
    assert_eq!(back.keys.len(), original.keys.len());
    assert_eq!(back.sliders.len(), original.sliders.len());
    let top = back.keys[0].as_ref().unwrap();
    let top0 = original.keys[0].as_ref().unwrap();
    assert_eq!(top.action.uuid, top0.action.uuid);
    assert_eq!(top.context.device, "dev1");
    assert_eq!(top.context.profile, "Default");
    assert_eq!(top.context.index, 0);
    let child = &top.children.as_ref().unwrap()[0];
    let child0 = &top0.children.as_ref().unwrap()[0];
    assert_eq!(child.action.uuid, child0.action.uuid);
    assert_eq!(child.context.index, 1);
    assert_eq!(child.context.device, "dev1");
    let plain = back.keys[1].as_ref().unwrap();
    assert_eq!(plain.action.uuid, "p2.b");
    assert_eq!(plain.settings, "{}");
}

#[test]
fn the_oldest_schema_migrates_stacks_into_containers() {
    fn legacy(uuid: &str, position: u8, index: u16) -> LegacyInstance {
        let a = maction("p1", uuid);
        LegacyInstance {
            context: ActionContext {
                device: "dev1".to_owned(),
                profile: "Default".to_owned(),
                controller: Controller::Keypad,
                position,
                index,
            },
            states: vec![ActionState::default()],
            current_state: 0,
            settings: "{}".to_owned(),
            action: a,
        }
    }
    let v1 = ProfileV1 {
        id: "Default".to_owned(),
        keys: vec![
            vec![legacy("p1.a", 0, 0), legacy("p1.b", 0, 1)],
            vec![legacy("p1.c", 1, 0)],
            vec![],
        ],
        sliders: vec![vec![legacy("p1.d", 0, 0)]],
    };
    let migrated = migrate_v1_profile(&v1);
    let container = migrated.keys[0].as_ref().unwrap();
    assert_eq!(container.action.uuid, "opendeck.multiaction");
    assert_eq!(container.settings, "{}");
    let children = container.children.as_ref().unwrap();
    assert_eq!(children.len(), 2);
    assert_eq!(children[0].context.index, 1, "stacked indices move up by one");
    assert_eq!(children[1].context.index, 2);
    let single = migrated.keys[1].as_ref().unwrap();
    assert_eq!(single.action.uuid, "p1.c");
    assert!(single.children.is_none());
    assert!(migrated.keys[2].is_none());
    assert_eq!(migrated.sliders[0].as_ref().unwrap().action.uuid, "p1.d");
}

#[test]
fn default_settings_match_a_fresh_installation() {
    let s = Settings::default();
    assert_eq!(s.language, "en");
    assert!(s.background);
    assert!(!s.autolaunch);
    assert!(s.darktheme);
    assert_eq!(s.brightness, 50);
    assert!(!s.developer);
}

#[test]
fn slot_counts_fit_the_grid() {
    assert_eq!(opendeck::key_slot_count(3, 5), 15);
    assert_eq!(opendeck::key_slot_count(0, 9), 0);
    assert_eq!(opendeck::key_slot_count(255, 255), 65025);
}

#[test]
fn inline_images_externalize_to_indexed_files() {
    let (name, payload) = externalize_state_image("data:image/png;base64,aGk=", 0)
        .expect("a base64 data image externalizes");
    assert_eq!(name, "0.png");
    match payload {
        ImagePayload::Encoded(bytes) => assert_eq!(bytes, b"hi".to_vec()),
        _ => panic!("a base64 payload decodes to bytes"),
    }

    let (name2, payload2) = externalize_state_image("data:image/svg+xml,<svg/>", 3)
        .expect("a textual data image externalizes");
    assert_eq!(name2, "3.svg", "the extension stops at the plus");
    match payload2 {
        ImagePayload::Text(text) => assert_eq!(text, "<svg/>"),
        _ => panic!("an unencoded payload stays text"),
    }

    let (name3, _) = externalize_state_image("data:image/jpeg;foo;base64,AAAA", 2)
        .expect("parameters before the payload are cut from the extension");
    assert_eq!(name3, "2.jpeg");

    assert!(externalize_state_image("/plain/path.png", 0).is_none());
    assert!(
        externalize_state_image("data:image/png;base64,@@@@", 0).is_none(),
        "an undecodable payload stays inline"
    );
}

#[test]
fn loading_rebases_externalized_image_names() {
    let inst = DiskActionInstance {
        action: maction("p1", "p1.a"),
        context: DiskActionContext { controller: Controller::Keypad, position: 0, index: 0 },
        states: vec![ActionState { image: "0.png".to_owned(), ..ActionState::default() }],
        current_state: 0,
        settings: "{}".to_owned(),
        children: None,
    };
    let disk = DiskProfile { keys: vec![Some(inst)], sliders: vec![] };
    let profile = disk_to_profile(&disk, "dev1", "Default", "/cfg/images/dev1/Default");
    assert_eq!(
        profile.keys[0].as_ref().unwrap().states[0].image,
        "/cfg/images/dev1/Default/Keypad.0.0/0.png",
        "a bare externalized name comes back under its instance's directory"
    );
    let untouched = DiskProfile {
        keys: vec![Some(DiskActionInstance {
            action: maction("p1", "p1.a"),
            context: DiskActionContext { controller: Controller::Keypad, position: 0, index: 0 },
            states: vec![ActionState { image: "/abs/icon.png".to_owned(), ..ActionState::default() }],
            current_state: 0,
            settings: "{}".to_owned(),
            children: None,
        })],
        sliders: vec![],
    };
    let profile2 = disk_to_profile(&untouched, "dev1", "Default", "/cfg/images/dev1/Default");
    assert_eq!(
        profile2.keys[0].as_ref().unwrap().states[0].image,
        "/abs/icon.png",
        "a placed path stays as it is"
    );
}

#[test]
fn migration_renames_the_legacy_plugin_identifier() {
    assert_eq!(
        opendeck::text::replace_all("aXbXc", "X", "YY"),
        "aYYbYYc",
        "every occurrence is exchanged"
    );
    let mut action = maction("com.amansprojects.opendeck", "com.amansprojects.opendeck.starterpack.counter");
    action.states[0].image = "com.amansprojects.opendeck/icon.png".to_owned();
    let legacy = LegacyInstance {
        action,
        context: ActionContext {
            device: "dev1".to_owned(),
            profile: "Default".to_owned(),
            controller: Controller::Keypad,
            position: 0,
            index: 0,
        },
        states: vec![ActionState::default()],
        current_state: 0,
        settings: "{\"id\":\"com.amansprojects.opendeck\"}".to_owned(),
    };
    let v1 = ProfileV1 { id: "Default".to_owned(), keys: vec![vec![legacy]], sliders: vec![] };
    let migrated = relabel_profile(&migrate_v1_profile(&v1));
    let inst = migrated.keys[0].as_ref().unwrap();
    assert_eq!(inst.action.plugin, "opendeck");
    assert_eq!(inst.action.uuid, "opendeck.starterpack.counter");
    assert_eq!(inst.action.states[0].image, "opendeck/icon.png");
    assert_eq!(inst.settings, "{\"id\":\"opendeck\"}");
}

#[test]
fn a_reloaded_plugin_is_tracked_once() {
    let mut instances = PluginInstances::new();
    instances.track("p1".to_owned(), PluginInstanceKind::Node);
    instances.track("p1".to_owned(), PluginInstanceKind::Native);
    assert_eq!(instances.registered_plugins(), ["p1"]);
    assert!(instances.deactivate("p1").is_ok());
    assert!(
        instances.deactivate("p1").is_err(),
        "one deactivation unseats a reloaded plugin whole"
    );
}
