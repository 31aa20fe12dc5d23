//! The typed messages of the wire protocol, in both directions.
//!
//! Serialization to and from JSON frames lives outside; the library builds
//! and consumes these values.

use vstd::prelude::*;

use crate::shared::{ActionContext, Controller};

verus! {

/// The `event` discriminator of an outbound frame.
#[derive(Clone, Copy, PartialEq, Eq, Structural, Debug)]
pub enum EventName {
    KeyDown,
    KeyUp,
    DialRotate,
    DialDown,
    DialUp,
    WillAppear,
    WillDisappear,
    DidReceiveSettings,
    DidReceiveGlobalSettings,
    TitleParametersDidChange,
    DeviceDidConnect,
    DeviceDidDisconnect,
    SendToPropertyInspector,
    SendToPlugin,
    PropertyInspectorDidAppear,
    PropertyInspectorDidDisappear,
    SetImage,
    SetBrightness,
}

/// A slot's place on the grid, as plugins see it.
#[derive(Clone, Copy, PartialEq, Eq, Structural, Debug)]
pub struct Coordinates {
    pub row: u8,
    pub column: u8,
}

/// Where a position lies on a controller's grid: keys count row by row
/// over the device's columns; encoders sit in a single row.
pub open spec fn spec_coordinates(controller: Controller, position: u8, columns: u8) -> Coordinates {
    match controller {
        Controller::Encoder => Coordinates { row: 0, column: position },
        Controller::Keypad => if columns == 0 {
            Coordinates { row: 0, column: position }
        } else {
            Coordinates { row: (position / columns) as u8, column: (position % columns) as u8 }
        },
    }
}

/// Compute a slot's place on the grid.
pub fn make_coordinates(controller: Controller, position: u8, columns: u8) -> (r: Coordinates)
    ensures
        r == spec_coordinates(controller, position, columns),
{
    match controller {
        Controller::Encoder => Coordinates { row: 0, column: position },
        Controller::Keypad => if columns == 0 {
            Coordinates { row: 0, column: position }
        } else {
            Coordinates { row: position / columns, column: position % columns }
        },
    }
}

/// The payload most instance-addressed events carry.
pub struct GenericInstancePayload {
    pub settings: String,
    pub coordinates: Coordinates,
    pub controller: Controller,
    pub state: u16,
    pub is_in_multi_action: bool,
}

/// The title styling block of a `titleParametersDidChange` event.
pub struct TitleParameters {
    pub font_family: String,
    pub font_size: String,
    pub font_style: String,
    pub font_underline: bool,
    pub show_title: bool,
    pub title_alignment: String,
    pub title_colour: String,
}

/// A device's shape as told to plugins on connect.
pub struct DeviceSizeInfo {
    pub rows: u8,
    pub columns: u8,
}

/// A device as told to plugins on connect.
pub struct DeviceInfo {
    pub id: String,
    pub name: String,
    pub size: DeviceSizeInfo,
    pub device_type: u8,
}

/// One outbound frame.
pub enum OutboundMessage {
    /// `keyDown`, `keyUp`, `willAppear`, `willDisappear` and
    /// `didReceiveSettings`: an instance-addressed event with the generic
    /// payload.
    Instance {
        event: EventName,
        action: String,
        context: ActionContext,
        device: String,
        payload: GenericInstancePayload,
    },
    /// `dialRotate`: a tick delta; the press flag travels on its own event
    /// path and is always false here.
    DialRotate {
        action: String,
        context: ActionContext,
        device: String,
        settings: String,
        coordinates: Coordinates,
        ticks: i16,
        pressed: bool,
    },
    /// `dialDown` and `dialUp`.
    DialPress {
        event: EventName,
        action: String,
        context: ActionContext,
        device: String,
        settings: String,
        coordinates: Coordinates,
    },
    /// `didReceiveGlobalSettings`.
    GlobalSettings { settings: String },
    /// `titleParametersDidChange`.
    TitleParametersDidChange {
        action: String,
        context: ActionContext,
        device: String,
        settings: String,
        coordinates: Coordinates,
        state: u16,
        title: String,
        title_parameters: TitleParameters,
    },
    /// `deviceDidConnect`.
    DeviceDidConnect { device: String, device_info: DeviceInfo },
    /// `deviceDidDisconnect`.
    DeviceDidDisconnect { device: String },
    /// `setImage` to a namespaced device's plugin; no position clears the
    /// whole surface, no image clears the one slot.
    SetImage { device: String, position: Option<u8>, image: Option<String> },
    /// `setBrightness` to a namespaced device's plugin.
    SetBrightness { device: String, brightness: u8 },
    /// `sendToPropertyInspector` and `sendToPlugin`: an opaque payload
    /// relayed between the two sides of an instance.
    Relay { event: EventName, action: String, context: ActionContext, payload: String },
    /// `propertyInspectorDidAppear` and `propertyInspectorDidDisappear`.
    PropertyInspector { event: EventName, action: String, context: ActionContext, device: String },
}

/// The initial handshake frame of an inbound connection.
pub enum RegisterEvent {
    RegisterPlugin { uuid: String },
    RegisterPropertyInspector { uuid: String },
}

/// An inbound event carrying only a context.
pub struct ContextEvent<C = ActionContext> {
    pub context: C,
}

/// An inbound event carrying only a payload.
pub struct PayloadEvent<T> {
    pub payload: T,
}

/// An inbound event carrying a context and a payload.
pub struct ContextAndPayloadEvent<T, C = ActionContext> {
    pub context: C,
    pub payload: T,
}

/// An inbound `openUrl` request.
pub struct OpenUrlEvent {
    pub url: String,
}

/// An inbound `logMessage` request.
pub struct LogMessageEvent {
    pub message: String,
}

/// An inbound `switchProfile` request.
pub struct SwitchProfileEvent {
    pub device: String,
    pub profile: String,
}

/// An inbound `setTitle` payload; absent fields fall back to the action's
/// own state.
pub struct SetTitlePayload {
    pub title: Option<String>,
    pub state: Option<u16>,
}

/// An inbound `setImage` payload.
pub struct SetImagePayload {
    pub image: Option<String>,
    pub state: Option<u16>,
}

/// An inbound `setState` payload.
pub struct SetStatePayload {
    pub state: u16,
}

/// A key press or release reported by a plugin-registered device.
pub struct PressPayload {
    pub device: String,
    pub position: u8,
}

/// A dial turn reported by a plugin-registered device.
pub struct TicksPayload {
    pub device: String,
    pub position: u8,
    pub ticks: i16,
}

/// One inbound frame after the handshake.
pub enum InboundEvent {
    SetSettings(ContextAndPayloadEvent<String>),
    GetSettings(ContextEvent),
    SetGlobalSettings(ContextAndPayloadEvent<String, String>),
    GetGlobalSettings(ContextEvent<String>),
    OpenUrl(PayloadEvent<OpenUrlEvent>),
    LogMessage(PayloadEvent<LogMessageEvent>),
    SetTitle(ContextAndPayloadEvent<SetTitlePayload>),
    SetImage(ContextAndPayloadEvent<SetImagePayload>),
    SetState(ContextAndPayloadEvent<SetStatePayload>),
    ShowAlert(ContextEvent),
    ShowOk(ContextEvent),
    SendToPropertyInspector(ContextAndPayloadEvent<String>),
    SendToPlugin(ContextAndPayloadEvent<String>),
    SwitchProfile(SwitchProfileEvent),
}

} // verus!
