use opendeck::disk::DiskActionContext;
use opendeck::errors::{Error, ErrorKind};
use opendeck::shared::{ActionContext, Controller};
use opendeck::text::{fmt_u16, fmt_u8, parse_dec_u16, parse_dec_u8};
use opendeck::webserver::{mime, route_request, RouteDecision};

fn ctx(device: &str, profile: &str, controller: Controller, position: u8, index: u16) -> ActionContext {
    ActionContext {
        device: device.to_owned(),
        profile: profile.to_owned(),
        controller,
        position,
        index,
    }
}

#[test]
fn context_encodes_to_delimited_string() {
    let c = ctx("dev1", "Default", Controller::Keypad, 4, 0);
    assert_eq!(c.encode(), "dev1.Default.Keypad.4.0");
    let e = ctx("sd-AB12", "work", Controller::Encoder, 2, 37);
    assert_eq!(e.encode(), "sd-AB12.work.Encoder.2.37");
}

#[test]
fn context_round_trips_through_its_string() {
    let c = ctx("dev1", "Default", Controller::Keypad, 4, 0);
    let s = c.encode();
    let back = ActionContext::decode(&s).expect("formatted context must parse");
    assert_eq!(back.device, "dev1");
    assert_eq!(back.profile, "Default");
    assert!(matches!(back.controller, Controller::Keypad));
    assert_eq!(back.position, 4);
    assert_eq!(back.index, 0);

    let e = ctx("pk-77", "games", Controller::Encoder, 255, 65535);
    let back2 = ActionContext::decode(&e.encode()).expect("encoder context must parse");
    assert_eq!(back2.position, 255);
    assert_eq!(back2.index, 65535);
}

#[test]
fn malformed_context_strings_are_rejected() {
    assert!(ActionContext::decode("no separators at all").is_none());
    assert!(ActionContext::decode("dev.prof.Keypad.4").is_none());
    assert!(ActionContext::decode("dev.prof.Weird.4.0").is_none());
    assert!(ActionContext::decode("dev.prof.Keypad.300.0").is_none());
    assert!(ActionContext::decode("dev.prof.Keypad.4.65536").is_none());
    assert!(ActionContext::decode("dev.prof.Keypad.4.").is_none());
}

#[test]
fn disk_context_round_trips_and_reads_legacy_form() {
    let d = DiskActionContext { controller: Controller::Keypad, position: 9, index: 3 };
    assert_eq!(d.encode(), "Keypad.9.3");
    let back = DiskActionContext::decode("Keypad.9.3").expect("three-part form parses");
    assert_eq!(back.position, 9);
    assert_eq!(back.index, 3);
    let legacy = DiskActionContext::decode("dev.prof.Encoder.1.2").expect("five-part form parses");
    assert!(matches!(legacy.controller, Controller::Encoder));
    assert_eq!(legacy.position, 1);
    assert_eq!(legacy.index, 2);
    assert!(DiskActionContext::decode("Keypad.9").is_none());
}

#[test]
fn decimal_text_round_trips() {
    assert_eq!(fmt_u8(0), "0");
    assert_eq!(fmt_u8(255), "255");
    assert_eq!(fmt_u16(65535), "65535");
    assert_eq!(parse_dec_u8("255"), Some(255));
    assert_eq!(parse_dec_u8("256"), None);
    assert_eq!(parse_dec_u8("007"), Some(7));
    assert_eq!(parse_dec_u16("65535"), Some(65535));
    assert_eq!(parse_dec_u16("65536"), None);
    assert_eq!(parse_dec_u16(""), None);
    assert_eq!(parse_dec_u16("1a"), None);
}

#[test]
fn mime_types_follow_the_extension() {
    assert_eq!(mime("html"), "text/html");
    assert_eq!(mime("mjs"), "text/javascript");
    assert_eq!(mime("css"), "text/css");
    assert_eq!(mime("png"), "image/png");
    assert_eq!(mime("webp"), "image/webp");
    assert_eq!(mime("svg"), "image/svg+xml");
    assert_eq!(mime("bin"), "application/octet-stream");
}

#[test]
fn webserver_confines_requests_to_the_root() {
    match route_request("/etc/passwd", "/home/user/config", false) {
        RouteDecision::Forbidden => {}
        _ => panic!("a path outside the root must be refused"),
    }
    match route_request("/home/user/config/icon.png", "/home/user/config", false) {
        RouteDecision::File(p) => assert_eq!(p, "/home/user/config/icon.png"),
        _ => panic!("a path inside the root must be served"),
    }
    match route_request("/etc/passwd", "/home/user/config", true) {
        RouteDecision::File(p) => assert_eq!(p, "/etc/passwd"),
        _ => panic!("developer mode lifts the confinement"),
    }
}

#[test]
fn webserver_decodes_and_strips_query_and_suffix() {
    match route_request("/root/a%20b.html?x=1", "/root", false) {
        RouteDecision::File(p) => assert_eq!(p, "/root/a b.html"),
        _ => panic!("percent-encoded path inside root must be served"),
    }
    match route_request("/root/pi.html|opendeck_property_inspector", "/root", false) {
        RouteDecision::PropertyInspector(p) => assert_eq!(p, "/root/pi.html"),
        _ => panic!("the marker suffix selects the property-inspector path"),
    }
}

#[test]
fn error_kinds_have_fixed_descriptions() {
    assert_eq!(Error::from_kind(ErrorKind::NotFound).message(), "not found");
    assert_eq!(Error::from_kind(ErrorKind::Unauthorized).message(), "unauthorized");
    assert_eq!(
        Error::from_kind(ErrorKind::Unsupported).message(),
        "unsupported on this platform"
    );
    assert_eq!(
        Error::from_kind(ErrorKind::VersionTooOld).message(),
        "required runtime is missing or too old"
    );
    let e = Error::new("profile not found".to_owned());
    assert_eq!(e.message(), "profile not found");
}
