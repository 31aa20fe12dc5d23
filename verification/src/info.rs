//! The registration "info" blob handed to every plugin and property
//! inspector when it starts.

use vstd::prelude::*;

use crate::messages::{DeviceInfo as DeviceSummary, DeviceSizeInfo};
use crate::registry::DeviceInfo;

verus! {

/// Application metadata inside the info blob.
pub struct ApplicationInfo {
    pub font: String,
    pub language: String,
    pub platform: String,
    pub platform_version: String,
    pub version: String,
}

/// The receiving plugin's identity inside the info blob.
pub struct PluginInfo {
    pub uuid: String,
    pub version: String,
}

/// The UI colour tokens inside the info blob.
pub struct ColoursInfo {
    pub button_pressed_background_colour: String,
    pub button_pressed_border_colour: String,
    pub button_pressed_text_colour: String,
    pub disabled_colour: String,
    pub highlight_colour: String,
    pub mouse_down_colour: String,
}

/// The whole info blob.
pub struct Info {
    pub application: ApplicationInfo,
    pub plugin: PluginInfo,
    pub device_pixel_ratio: u8,
    pub colors: ColoursInfo,
    pub devices: Vec<DeviceSummary>,
}

/// A registry device as summarized for plugins.
pub fn device_summary(d: &DeviceInfo) -> (r: DeviceSummary)
    ensures
        r.id@ == d.id@,
        r.name@ == d.name@,
        r.size.rows == d.rows,
        r.size.columns == d.columns,
        r.device_type == d.device_type,
{
    DeviceSummary {
        id: d.id.clone(),
        name: d.name.clone(),
        size: DeviceSizeInfo { rows: d.rows, columns: d.columns },
        device_type: d.device_type,
    }
}

/// Build the info blob for one plugin: fixed font and colour tokens, the
/// caller's language, platform and version strings, and a summary of every
/// connected device.
pub fn make_info(
    uuid: String,
    version: String,
    language: String,
    platform: String,
    platform_version: String,
    app_version: String,
    devices: &Vec<DeviceInfo>,
) -> (r: Info)
    ensures
        r.application.font@ == "ui-sans-serif"@,
        r.application.language@ == language@,
        r.application.platform@ == platform@,
        r.application.platform_version@ == platform_version@,
        r.application.version@ == app_version@,
        r.plugin.uuid@ == uuid@,
        r.plugin.version@ == version@,
        r.device_pixel_ratio == 0,
        r.colors.highlight_colour@ == "#F7821BFF"@,
        r.devices@.len() == devices@.len(),
        forall|j: int|
            0 <= j < devices@.len() ==> (#[trigger] r.devices@[j]).id@ == devices@[j].id@
                && r.devices@[j].size.rows == devices@[j].rows && r.devices@[j].size.columns
                == devices@[j].columns && r.devices@[j].device_type == devices@[j].device_type
                && r.devices@[j].name@ == devices@[j].name@,
{
    let mut summaries: Vec<DeviceSummary> = Vec::new();
    let mut i: usize = 0;
    while i < devices.len()
        invariant
            0 <= i <= devices@.len(),
            summaries@.len() == i,
            forall|j: int|
                0 <= j < i ==> (#[trigger] summaries@[j]).id@ == devices@[j].id@
                    && summaries@[j].size.rows == devices@[j].rows && summaries@[j].size.columns
                    == devices@[j].columns && summaries@[j].device_type == devices@[j].device_type
                    && summaries@[j].name@ == devices@[j].name@,
        decreases devices@.len() - i,
    {
        summaries.push(device_summary(&devices[i]));
        i = i + 1;
    }
    Info {
        application: ApplicationInfo {
            font: "ui-sans-serif".to_owned(),
            language,
            platform,
            platform_version,
            version: app_version,
        },
        plugin: PluginInfo { uuid, version },
        device_pixel_ratio: 0,
        colors: ColoursInfo {
            button_pressed_background_colour: "#303030FF".to_owned(),
            button_pressed_border_colour: "#646464FF".to_owned(),
            button_pressed_text_colour: "#969696FF".to_owned(),
            disabled_colour: "#F7821B59".to_owned(),
            highlight_colour: "#F7821BFF".to_owned(),
            mouse_down_colour: "#CF6304FF".to_owned(),
        },
        devices: summaries,
    }
}

} // verus!
