//! Plugin manifests and the launch strategy: which code path runs a
//! plugin on this platform, through which runtime, and how manifests feed
//! the live action catalogue.

use vstd::prelude::*;

use crate::errors::{Error, ErrorKind};
use crate::shared::{Action, ActionV, dup_action};
use crate::text::{
    ends_with_ignore_ascii_case, lower_codes, str_eq, vec_contains_str,
};

verus! {

/// One supported operating system in a manifest.
pub struct OS {
    pub platform: String,
}

/// A plugin package's static descriptor.
pub struct PluginManifest {
    pub name: String,
    pub author: String,
    pub version: String,
    pub icon: String,
    pub category: String,
    pub actions: Vec<Action>,
    pub os: Vec<OS>,
    pub code_path: Option<String>,
    pub code_path_windows: Option<String>,
    pub code_path_macos: Option<String>,
    pub code_path_linux: Option<String>,
    pub property_inspector_path: Option<String>,
    pub device_namespace: Option<String>,
}

/// Whether a file with the given path exists on disk.
///
/// Relies on `std::path::Path::exists`; what is on disk is no function of
/// the path, so nothing is promised of the answer.
#[verifier::external_body]
fn file_exists(path: &str) -> bool {
    std::path::Path::new(path).exists()
}

/// The icon path an existence probe picks: the `.svg` variant when it
/// exists, else the `@2x.png` variant when that exists, else the plain
/// `.png` variant.
pub open spec fn spec_choose_icon(path: Seq<char>, svg: bool, two_x: bool) -> Seq<char> {
    if svg {
        path + ".svg"@
    } else if two_x {
        path + "@2x.png"@
    } else {
        path + ".png"@
    }
}

/// Pick the icon variant for two existence answers.
pub fn choose_icon(path: &str, svg: bool, two_x: bool) -> (r: String)
    ensures
        r@ == spec_choose_icon(path@, svg, two_x),
{
    let mut s = path.to_owned();
    if svg {
        s.append(".svg");
    } else if two_x {
        s.append("@2x.png");
    } else {
        s.append(".png");
    }
    s
}

/// Resolve an icon path from a manifest to a file: try `.svg`, then
/// `@2x.png`, then fall back to `.png` whether or not it exists.
pub fn convert_icon(path: String) -> (r: String)
    ensures
        r@ == path@ + ".svg"@ || r@ == path@ + "@2x.png"@ || r@ == path@ + ".png"@,
{
    let svg = choose_icon(path.as_str(), true, false);
    if file_exists(svg.as_str()) {
        return svg;
    }
    let two_x = choose_icon(path.as_str(), false, true);
    if file_exists(two_x.as_str()) {
        return two_x;
    }
    choose_icon(path.as_str(), false, false)
}

/// How a resolved code path is executed.
#[derive(Clone, Copy, PartialEq, Eq, Structural, Debug)]
pub enum LaunchMode {
    /// A hidden webview hosting an HTML entry point.
    Webview,
    /// A managed interpreter child process for a JavaScript entry point.
    Node,
    /// The Windows-compatibility layer running a Windows binary.
    Wine,
    /// A native child process.
    Native,
}

/// A resolved launch: the code path to run and the way to run it.
#[derive(Debug)]
pub struct LaunchPlan {
    pub code_path: String,
    pub mode: LaunchMode,
}

/// The platform-specific code path override of a manifest.
pub open spec fn spec_override_for(m: &PluginManifest, platform: Seq<char>) -> Option<Seq<char>> {
    if platform == "windows"@ {
        opt_view(m.code_path_windows)
    } else if platform == "mac"@ {
        opt_view(m.code_path_macos)
    } else if platform == "linux"@ {
        opt_view(m.code_path_linux)
    } else {
        None
    }
}

/// The view of an optional string.
pub open spec fn opt_view(o: Option<String>) -> Option<Seq<char>> {
    match o {
        Some(s) => Some(s@),
        None => None,
    }
}

/// The platforms a manifest declares.
pub open spec fn spec_platforms(m: &PluginManifest) -> Seq<Seq<char>> {
    Seq::new(m.os@.len(), |i: int| m.os@[i].platform@)
}

/// Whether a sequence of characters ends with a suffix, up to ASCII case.
pub open spec fn ends_ci(s: Seq<char>, suffix: Seq<char>) -> bool {
    s.len() >= suffix.len() && lower_codes(s).skip(s.len() - suffix.len()) == lower_codes(suffix)
}

/// The execution mode a code path's extension picks, given whether the
/// compatibility layer is in play.
pub open spec fn spec_mode_for(path: Seq<char>, wine: bool) -> LaunchMode {
    if ends_ci(path, ".html"@) || ends_ci(path, ".htm"@) || ends_ci(path, ".xhtml"@) {
        LaunchMode::Webview
    } else if ends_ci(path, ".js"@) || ends_ci(path, ".mjs"@) || ends_ci(path, ".cjs"@) {
        LaunchMode::Node
    } else if wine {
        LaunchMode::Wine
    } else {
        LaunchMode::Native
    }
}

/// What launch resolution decides: an entry for the current platform wins
/// and uses that platform's code path override when present; failing that,
/// a declared `windows` entry marks the plugin for the compatibility
/// layer with the windows code path as fallback; anything else is
/// unsupported, as is a resolution without any code path.
pub open spec fn spec_resolve_launch(m: &PluginManifest, platform: Seq<char>) -> Option<(
    Seq<char>,
    LaunchMode,
)> {
    let native = spec_platforms(m).contains(platform);
    let wine = !native && spec_platforms(m).contains("windows"@);
    let base = if native {
        match spec_override_for(m, platform) {
            Some(p) => Some(p),
            None => opt_view(m.code_path),
        }
    } else {
        opt_view(m.code_path)
    };
    let resolved = match base {
        Some(p) => Some(p),
        None => if wine {
            opt_view(m.code_path_windows)
        } else {
            None
        },
    };
    if !(native || wine) {
        None
    } else {
        match resolved {
            Some(p) => Some((p, spec_mode_for(p, wine))),
            None => None,
        }
    }
}

/// Resolve how to launch a plugin on a platform.
pub fn resolve_launch(m: &PluginManifest, platform: &str) -> (r: Result<LaunchPlan, Error>)
    ensures
        match r {
            Ok(plan) => spec_resolve_launch(m, platform@) == Some((plan.code_path@, plan.mode)),
            Err(e) => spec_resolve_launch(m, platform@) is None && e.kind
                == ErrorKind::Unsupported,
        },
{
    let mut native = false;
    let mut winseen = false;
    let mut i: usize = 0;
    while i < m.os.len()
        invariant
            0 <= i <= m.os@.len(),
            native == spec_platforms(m).take(i as int).contains(platform@),
            winseen == spec_platforms(m).take(i as int).contains("windows"@),
        decreases m.os@.len() - i,
    {
        proof {
            assert(spec_platforms(m)[i as int] == m.os@[i as int].platform@);
            lemma_take_snoc_contains(spec_platforms(m), i as int, platform@);
            lemma_take_snoc_contains(spec_platforms(m), i as int, "windows"@);
        }
        if str_eq(m.os[i].platform.as_str(), platform) {
            native = true;
        }
        if str_eq(m.os[i].platform.as_str(), "windows") {
            winseen = true;
        }
        i = i + 1;
    }
    proof {
        assert(spec_platforms(m).take(m.os@.len() as int) =~= spec_platforms(m));
    }
    let wine = !native && winseen;
    let base: Option<String> = if native {
        let over: Option<&String> = if str_eq(platform, "windows") {
            m.code_path_windows.as_ref()
        } else if str_eq(platform, "mac") {
            m.code_path_macos.as_ref()
        } else if str_eq(platform, "linux") {
            m.code_path_linux.as_ref()
        } else {
            None
        };
        match over {
            Some(p) => Some(p.clone()),
            None => match &m.code_path {
                Some(p) => Some(p.clone()),
                None => None,
            },
        }
    } else {
        match &m.code_path {
            Some(p) => Some(p.clone()),
            None => None,
        }
    };
    let resolved: Option<String> = match base {
        Some(p) => Some(p),
        None => if wine {
            match &m.code_path_windows {
                Some(p) => Some(p.clone()),
                None => None,
            }
        } else {
            None
        },
    };
    if !(native || wine) {
        return Err(Error::from_kind(ErrorKind::Unsupported));
    }
    match resolved {
        None => Err(Error::from_kind(ErrorKind::Unsupported)),
        Some(code_path) => {
            let mode = if ends_with_ignore_ascii_case(code_path.as_str(), ".html")
                || ends_with_ignore_ascii_case(code_path.as_str(), ".htm")
                || ends_with_ignore_ascii_case(code_path.as_str(), ".xhtml") {
                LaunchMode::Webview
            } else if ends_with_ignore_ascii_case(code_path.as_str(), ".js")
                || ends_with_ignore_ascii_case(code_path.as_str(), ".mjs")
                || ends_with_ignore_ascii_case(code_path.as_str(), ".cjs") {
                LaunchMode::Node
            } else if wine {
                LaunchMode::Wine
            } else {
                LaunchMode::Native
            };
            Ok(LaunchPlan { code_path, mode })
        },
    }
}

/// Extending a scanned prefix by one entry adds exactly that entry's
/// membership.
proof fn lemma_take_snoc_contains(s: Seq<Seq<char>>, i: int, x: Seq<char>)
    requires
        0 <= i < s.len(),
    ensures
        s.take(i + 1).contains(x) == (s.take(i).contains(x) || s[i] == x),
{
    let t = s.take(i + 1);
    if t.contains(x) {
        let j = choose|j: int| 0 <= j < t.len() && t[j] == x;
        if j < i {
            assert(s.take(i)[j] == x);
            assert(s.take(i).contains(x));
        } else {
            assert(s[i] == x);
        }
    }
    if s.take(i).contains(x) {
        let j = choose|j: int| 0 <= j < s.take(i).len() && s.take(i)[j] == x;
        assert(t[j] == x);
        assert(t.contains(x));
    }
    if s[i] == x {
        assert(t[i] == x);
        assert(t.contains(x));
    }
}

/// What `semver::Version::parse` yields on a version string: its major,
/// minor and patch numbers, or nothing when the string is no version.
pub uninterp spec fn semver_triple_of(s: Seq<char>) -> Option<(u64, u64, u64)>;

/// Parse a version string.
///
/// Relies on `semver::Version::parse`: parsing is a function of the string
/// alone, and a parsed version carries its numeric major, minor and patch
/// components. Pre-release and build metadata are dropped here.
#[verifier::external_body]
fn parse_version(s: &str) -> (r: Option<(u64, u64, u64)>)
    ensures
        r == semver_triple_of(s@),
{
    match semver::Version::parse(s) {
        Ok(v) => Some((v.major, v.minor, v.patch)),
        Err(_) => None,
    }
}

/// Whether one version triple comes before another.
pub open spec fn spec_triple_lt(a: (u64, u64, u64), b: (u64, u64, u64)) -> bool {
    a.0 < b.0 || (a.0 == b.0 && (a.1 < b.1 || (a.1 == b.1 && a.2 < b.2)))
}

/// Decide whether one version triple comes before another.
pub fn triple_lt(a: (u64, u64, u64), b: (u64, u64, u64)) -> (r: bool)
    ensures
        r == spec_triple_lt(a, b),
{
    a.0 < b.0 || (a.0 == b.0 && (a.1 < b.1 || (a.1 == b.1 && a.2 < b.2)))
}

/// Whether a bundled builtin plugin must replace the installed copy: yes
/// when nothing parseable is installed, or when the installed version
/// comes before the bundled one.
pub open spec fn spec_should_replace(
    bundled: Option<(u64, u64, u64)>,
    installed: Option<(u64, u64, u64)>,
) -> bool {
    match (bundled, installed) {
        (Some(b), Some(e)) => spec_triple_lt(e, b),
        (Some(_), None) => true,
        (None, _) => false,
    }
}

/// Decide whether a bundled builtin plugin replaces the installed copy,
/// from the two manifests' version strings.
pub fn should_replace_builtin(bundled: &str, installed: Option<&str>) -> (r: bool)
    ensures
        r == spec_should_replace(
            semver_triple_of(bundled@),
            match installed {
                Some(s) => semver_triple_of(s@),
                None => None,
            },
        ),
{
    match parse_version(bundled) {
        None => false,
        Some(b) => match installed {
            None => true,
            Some(s) => match parse_version(s) {
                None => true,
                Some(e) => triple_lt(e, b),
            },
        },
    }
}

/// The fixed arguments every non-webview launch passes to the plugin:
/// the broker port, the plugin's id, the registration event name, and the
/// info blob.
pub fn registration_args(port: &str, uuid: &str, info: String) -> (r: Vec<String>)
    ensures
        r@.len() == 8,
        r.deep_view() =~= seq![
            "-port"@,
            port@,
            "-pluginUUID"@,
            uuid@,
            "-registerEvent"@,
            "registerPlugin"@,
            "-info"@,
            info@,
        ],
{
    let mut args: Vec<String> = Vec::new();
    args.push("-port".to_owned());
    args.push(port.to_owned());
    args.push("-pluginUUID".to_owned());
    args.push(uuid.to_owned());
    args.push("-registerEvent".to_owned());
    args.push("registerPlugin".to_owned());
    args.push("-info".to_owned());
    args.push(info);
    proof {
        assert(args.deep_view() =~= seq![
            "-port"@,
            port@,
            "-pluginUUID"@,
            uuid@,
            "-registerEvent"@,
            "registerPlugin"@,
            "-info"@,
            info@,
        ]);
    }
    args
}

/// A running plugin's execution handle class; the handle itself — a child
/// process or a webview window — lives with the caller under the same id.
#[derive(Clone, Copy, PartialEq, Eq, Structural, Debug)]
pub enum PluginInstanceKind {
    Webview,
    Wine,
    Native,
    Node,
}

/// The running plugin instances, by plugin id.
pub struct PluginInstances {
    pub entries: Vec<(String, PluginInstanceKind)>,
}

/// Mathematical image of the instance table.
pub type InstancesV = Seq<(Seq<char>, PluginInstanceKind)>;

impl View for PluginInstances {
    type V = InstancesV;

    open spec fn view(&self) -> InstancesV {
        Seq::new(self.entries@.len(), |i: int| (self.entries@[i].0@, self.entries@[i].1))
    }
}

/// The first entry of a plugin id, scanning from a position.
pub open spec fn inst_find(s: InstancesV, k: Seq<char>, from: int) -> Option<int>
    decreases s.len() - from,
{
    if from < 0 || from >= s.len() {
        None
    } else if s[from].0 == k {
        Some(from)
    } else {
        inst_find(s, k, from + 1)
    }
}

/// What an id search says about the entries it passed over.
proof fn lemma_inst_find(s: InstancesV, k: Seq<char>, from: int)
    requires
        0 <= from <= s.len(),
    ensures
        match inst_find(s, k, from) {
            Some(i) => from <= i < s.len() && s[i].0 == k,
            None => true,
        },
    decreases s.len() - from,
{
    if from < s.len() && s[from].0 != k {
        lemma_inst_find(s, k, from + 1);
    }
}

impl PluginInstances {
    /// No plugins running yet.
    pub fn new() -> (r: Self)
        ensures
            r@ == Seq::<(Seq<char>, PluginInstanceKind)>::empty(),
    {
        let r = PluginInstances { entries: Vec::new() };
        proof {
            assert(r@ =~= Seq::<(Seq<char>, PluginInstanceKind)>::empty());
        }
        r
    }

    /// The ids of every running plugin, in launch order.
    pub fn registered_plugins(&self) -> (r: Vec<String>)
        ensures
            r.deep_view() == Seq::new(self@.len(), |i: int| self@[i].0),
    {
        let mut out: Vec<String> = Vec::new();
        let mut i: usize = 0;
        while i < self.entries.len()
            invariant
                0 <= i <= self.entries@.len(),
                self@.len() == self.entries@.len(),
                out@.len() == i,
                forall|j: int| 0 <= j < i ==> #[trigger] out.deep_view()[j] == self@[j].0,
            decreases self.entries@.len() - i,
        {
            let ghost prev = out.deep_view();
            proof {
                assert(self@[i as int].0 == self.entries@[i as int].0@);
            }
            out.push(self.entries[i].0.clone());
            proof {
                assert forall|j: int| 0 <= j < i + 1 implies #[trigger] out.deep_view()[j]
                    == if j < i {
                    prev[j]
                } else {
                    self@[i as int].0
                } by {
                    assert(out.deep_view()[j] == out@[j]@);
                }
            }
            i = i + 1;
        }
        proof {
            assert(out.deep_view() =~= Seq::new(self@.len(), |i: int| self@[i].0));
        }
        out
    }

    /// Record a plugin as running, replacing a stale record of the same
    /// id: a reloaded plugin is tracked once, so one deactivation unseats
    /// it whole.
    pub fn track(&mut self, id: String, kind: PluginInstanceKind)
        ensures
            final(self)@ == match inst_find(old(self)@, id@, 0) {
                Some(i) => old(self)@.update(i, (id@, kind)),
                None => old(self)@.push((id@, kind)),
            },
    {
        proof {
            lemma_inst_find(self@, id@, 0);
        }
        let ghost idv = id@;
        let mut i: usize = 0;
        while i < self.entries.len()
            invariant
                0 <= i <= self.entries@.len(),
                self@ == old(self)@,
                self@.len() == self.entries@.len(),
                inst_find(self@, idv, 0) == inst_find(self@, idv, i as int),
                idv == id@,
            decreases self.entries@.len() - i,
        {
            proof {
                assert(self@[i as int].0 == self.entries@[i as int].0@);
            }
            if str_eq(self.entries[i].0.as_str(), id.as_str()) {
                let ghost before = self@;
                let entry = &mut self.entries[i];
                entry.0 = id;
                entry.1 = kind;
                proof {
                    assert(self@ =~= before.update(i as int, (idv, kind)));
                }
                return ;
            }
            i = i + 1;
        }
        let ghost before = self@;
        self.entries.push((id, kind));
        proof {
            assert(self@ =~= before.push((idv, kind)));
        }
    }

    /// Stop tracking a plugin; the handle class comes back so the caller
    /// can close the window or kill the process, and an untracked id is an
    /// error.
    pub fn deactivate(&mut self, id: &str) -> (r: Result<PluginInstanceKind, Error>)
        ensures
            match r {
                Ok(kind) => inst_find(old(self)@, id@, 0) matches Some(i) && old(self)@[i].1
                    == kind && final(self)@ == old(self)@.remove(i),
                Err(e) => inst_find(old(self)@, id@, 0) is None && final(self)@ == old(self)@
                    && e.kind == ErrorKind::NotFound,
            },
    {
        let mut i: usize = 0;
        while i < self.entries.len()
            invariant
                0 <= i <= self.entries@.len(),
                self@ == old(self)@,
                self@.len() == self.entries@.len(),
                inst_find(self@, id@, 0) == inst_find(self@, id@, i as int),
            decreases self.entries@.len() - i,
        {
            proof {
                assert(self@[i as int].0 == self.entries@[i as int].0@);
            }
            if str_eq(self.entries[i].0.as_str(), id) {
                let ghost before = self@;
                let kind = self.entries[i].1;
                self.entries.remove(i);
                proof {
                    assert(self@ =~= before.remove(i as int));
                }
                return Ok(kind);
            }
            i = i + 1;
        }
        Err(Error::from_kind(ErrorKind::NotFound))
    }
}


/// A path below a plugin's directory.
pub open spec fn spec_path_join(base: Seq<char>, rel: Seq<char>) -> Seq<char> {
    base + seq!['/'] + rel
}

/// Join a path below a plugin's directory.
pub fn path_join(base: &str, rel: &str) -> (r: String)
    ensures
        r@ == spec_path_join(base@, rel@),
{
    let mut s = base.to_owned();
    s.append("/");
    s.append(rel);
    proof {
        reveal_strlit("/");
        assert("/"@ =~= seq!['/']);
        assert(s@ =~= spec_path_join(base@, rel@));
    }
    s
}

/// The key a font family is matched under: trimmed and case-folded.
pub open spec fn spec_font_key(s: Seq<char>) -> Seq<u32> {
    lower_codes(crate::text::spec_trim(s))
}

/// The replacement for a well-known font family, if any: families bundled
/// with the big platforms map to metric-compatible free ones.
pub open spec fn spec_font_replacement(k: Seq<u32>) -> Option<Seq<char>> {
    if k == lower_codes("arial"@) {
        Some("Liberation Sans"@)
    } else if k == lower_codes("arial black"@) {
        Some("Archivo Black"@)
    } else if k == lower_codes("comic sans ms"@) {
        Some("Comic Neue"@)
    } else if k == lower_codes("courier"@) {
        Some("Courier Prime"@)
    } else if k == lower_codes("georgia"@) {
        Some("Tinos"@)
    } else if k == lower_codes("impact"@) {
        Some("Anton"@)
    } else if k == lower_codes("microsoft sans serif"@) {
        Some("Liberation Serif"@)
    } else if k == lower_codes("tahoma"@) {
        Some("Open Sans"@)
    } else if k == lower_codes("trebuchet ms"@) {
        Some("Fira Sans"@)
    } else {
        None
    }
}

/// Substitute a well-known font family.
pub fn font_replacement(family: &str) -> (r: Option<&'static str>)
    ensures
        match r {
            Some(t) => spec_font_replacement(spec_font_key(family@)) == Some(t@),
            None => spec_font_replacement(spec_font_key(family@)) is None,
        },
{
    if crate::text::matches_key(family, "arial") {
        Some("Liberation Sans")
    } else if crate::text::matches_key(family, "arial black") {
        Some("Archivo Black")
    } else if crate::text::matches_key(family, "comic sans ms") {
        Some("Comic Neue")
    } else if crate::text::matches_key(family, "courier") {
        Some("Courier Prime")
    } else if crate::text::matches_key(family, "georgia") {
        Some("Tinos")
    } else if crate::text::matches_key(family, "impact") {
        Some("Anton")
    } else if crate::text::matches_key(family, "microsoft sans serif") {
        Some("Liberation Serif")
    } else if crate::text::matches_key(family, "tahoma") {
        Some("Open Sans")
    } else if crate::text::matches_key(family, "trebuchet ms") {
        Some("Fira Sans")
    } else {
        None
    }
}

/// Whether a string is one of the three icon variants of a path.
pub open spec fn is_icon_variant(r: Seq<char>, path: Seq<char>) -> bool {
    r == path + ".svg"@ || r == path + "@2x.png"@ || r == path + ".png"@
}

/// Prepare one action from a freshly parsed manifest: stamp the owning
/// plugin, resolve the icon and property-inspector paths below the plugin
/// directory, resolve each state's image — the placeholder takes the
/// action's own icon — and substitute well-known font families.
pub fn prepare_action(a: &Action, plugin_id: &str, base_path: &str, default_pi: &Option<String>) -> (r: Action)
    ensures
        r.name@ == a.name@,
        r.uuid@ == a.uuid@,
        r.plugin@ == plugin_id@,
        r.tooltip@ == a.tooltip@,
        r.disable_automatic_states == a.disable_automatic_states,
        r.visible_in_action_list == a.visible_in_action_list,
        r.supported_in_multi_actions == a.supported_in_multi_actions,
        r.user_title_enabled == a.user_title_enabled,
        r.controllers.deep_view() == a.controllers.deep_view(),
        is_icon_variant(r.icon@, spec_path_join(base_path@, a.icon@)),
        r.property_inspector@ == if a.property_inspector@.len() > 0 {
            spec_path_join(base_path@, a.property_inspector@)
        } else {
            match default_pi {
                Some(d) => spec_path_join(base_path@, d@),
                None => a.property_inspector@,
            }
        },
        r.states@.len() == a.states@.len(),
        forall|j: int|
            0 <= j < a.states@.len() ==> {
                let old_s = a.states.deep_view()[j];
                let new_s = #[trigger] r.states.deep_view()[j];
                &&& new_s.name == old_s.name
                &&& new_s.text == old_s.text
                &&& new_s.show == old_s.show
                &&& new_s.colour == old_s.colour
                &&& new_s.alignment == old_s.alignment
                &&& new_s.style == old_s.style
                &&& new_s.size == old_s.size
                &&& new_s.underline == old_s.underline
                &&& new_s.family == (match spec_font_replacement(spec_font_key(old_s.family)) {
                    Some(f) => f,
                    None => old_s.family,
                })
                &&& if old_s.image == "actionDefaultImage"@ {
                    new_s.image == r.icon@
                } else {
                    is_icon_variant(new_s.image, spec_path_join(base_path@, old_s.image))
                }
            },
{
    let icon = convert_icon(path_join(base_path, a.icon.as_str()));
    let property_inspector: String = if a.property_inspector.as_str().unicode_len() > 0 {
        path_join(base_path, a.property_inspector.as_str())
    } else {
        match default_pi {
            Some(d) => path_join(base_path, d.as_str()),
            None => a.property_inspector.clone(),
        }
    };
    let mut states: Vec<crate::shared::ActionState> = Vec::new();
    let mut j: usize = 0;
    while j < a.states.len()
        invariant
            0 <= j <= a.states@.len(),
            states@.len() == j,
            is_icon_variant(icon@, spec_path_join(base_path@, a.icon@)),
            forall|m: int|
                0 <= m < j ==> {
                    let old_s = a.states.deep_view()[m];
                    let new_s = #[trigger] states.deep_view()[m];
                    &&& new_s.name == old_s.name
                    &&& new_s.text == old_s.text
                    &&& new_s.show == old_s.show
                    &&& new_s.colour == old_s.colour
                    &&& new_s.alignment == old_s.alignment
                    &&& new_s.style == old_s.style
                    &&& new_s.size == old_s.size
                    &&& new_s.underline == old_s.underline
                    &&& new_s.family == (match spec_font_replacement(
                        spec_font_key(old_s.family),
                    ) {
                        Some(f) => f,
                        None => old_s.family,
                    })
                    &&& if old_s.image == "actionDefaultImage"@ {
                        new_s.image == icon@
                    } else {
                        is_icon_variant(new_s.image, spec_path_join(base_path@, old_s.image))
                    }
                },
        decreases a.states@.len() - j,
    {
        let ghost prev = states.deep_view();
        let src = &a.states[j];
        let mut st = crate::shared::dup_action_state(src);
        if crate::text::str_eq(st.image.as_str(), "actionDefaultImage") {
            st.image = icon.clone();
        } else {
            st.image = convert_icon(path_join(base_path, st.image.as_str()));
        }
        match font_replacement(st.family.as_str()) {
            Some(f) => {
                st.family = f.to_owned();
            },
            None => {},
        }
        states.push(st);
        proof {
            assert(a.states.deep_view()[j as int] == a.states@[j as int]@);
            assert forall|m: int| 0 <= m < j + 1 implies #[trigger] states.deep_view()[m]
                == if m < j {
                prev[m]
            } else {
                states.deep_view()[j as int]
            } by {
                assert(states.deep_view()[m] == states@[m]@);
            }
        }
        j = j + 1;
    }
    Action {
        name: a.name.clone(),
        uuid: a.uuid.clone(),
        plugin: plugin_id.to_owned(),
        tooltip: a.tooltip.clone(),
        icon,
        disable_automatic_states: a.disable_automatic_states,
        visible_in_action_list: a.visible_in_action_list,
        supported_in_multi_actions: a.supported_in_multi_actions,
        user_title_enabled: a.user_title_enabled,
        property_inspector,
        controllers: crate::shared::dup_strings(&a.controllers),
        states,
    }
}


/// The live action catalogue: category names to the actions filed under
/// them.
pub struct Categories {
    pub entries: Vec<(String, Vec<Action>)>,
}

/// Mathematical image of the catalogue.
pub type CategoriesV = Seq<(Seq<char>, Seq<ActionV>)>;

impl View for Categories {
    type V = CategoriesV;

    open spec fn view(&self) -> CategoriesV {
        Seq::new(
            self.entries@.len(),
            |i: int| (self.entries@[i].0@, self.entries@[i].1.deep_view()),
        )
    }
}

/// The first action with the given id, scanning from a position.
pub open spec fn action_find(s: Seq<ActionV>, uuid: Seq<char>, from: int) -> Option<int>
    decreases s.len() - from,
{
    if from < 0 || from >= s.len() {
        None
    } else if s[from].uuid == uuid {
        Some(from)
    } else {
        action_find(s, uuid, from + 1)
    }
}

/// A category with one action upserted: any earlier action with the same
/// id leaves, and the new one goes to the end.
pub open spec fn spec_upsert_action(list: Seq<ActionV>, a: ActionV) -> Seq<ActionV> {
    match action_find(list, a.uuid, 0) {
        Some(i) => list.remove(i).push(a),
        None => list.push(a),
    }
}

/// A category with a batch of actions upserted in order.
pub open spec fn spec_register_actions(list: Seq<ActionV>, acts: Seq<ActionV>) -> Seq<ActionV>
    decreases acts.len(),
{
    if acts.len() == 0 {
        list
    } else {
        spec_upsert_action(spec_register_actions(list, acts.drop_last()), acts.last())
    }
}

/// The first category with the given name, scanning from a position.
pub open spec fn cat_find(s: CategoriesV, name: Seq<char>, from: int) -> Option<int>
    decreases s.len() - from,
{
    if from < 0 || from >= s.len() {
        None
    } else if s[from].0 == name {
        Some(from)
    } else {
        cat_find(s, name, from + 1)
    }
}

/// The actions of a category that do not belong to a plugin.
pub open spec fn spec_retain_actions(list: Seq<ActionV>, p: Seq<char>) -> Seq<ActionV>
    decreases list.len(),
{
    if list.len() == 0 {
        Seq::empty()
    } else {
        let rest = spec_retain_actions(list.drop_last(), p);
        if list.last().plugin == p {
            rest
        } else {
            rest.push(list.last())
        }
    }
}

/// The catalogue without a plugin's actions; categories left empty leave
/// too.
pub open spec fn spec_remove_plugin_categories(s: CategoriesV, p: Seq<char>) -> CategoriesV
    decreases s.len(),
{
    if s.len() == 0 {
        Seq::empty()
    } else {
        let rest = spec_remove_plugin_categories(s.drop_last(), p);
        let cleaned = spec_retain_actions(s.last().1, p);
        if cleaned.len() == 0 {
            rest
        } else {
            rest.push((s.last().0, cleaned))
        }
    }
}

/// Find the position of an action id in a category.
fn action_position(list: &Vec<Action>, uuid: &str) -> (r: Option<usize>)
    ensures
        match r {
            Some(i) => Some(i as int) == action_find(list.deep_view(), uuid@, 0),
            None => action_find(list.deep_view(), uuid@, 0) is None,
        },
{
    let mut i: usize = 0;
    while i < list.len()
        invariant
            0 <= i <= list@.len(),
            action_find(list.deep_view(), uuid@, 0) == action_find(
                list.deep_view(),
                uuid@,
                i as int,
            ),
        decreases list@.len() - i,
    {
        proof {
            assert(list.deep_view()[i as int] == list@[i as int]@);
        }
        if str_eq(list[i].uuid.as_str(), uuid) {
            return Some(i);
        }
        i = i + 1;
    }
    None
}

impl Categories {
    /// An empty catalogue.
    pub fn new() -> (r: Self)
        ensures
            r@ == Seq::<(Seq<char>, Seq<ActionV>)>::empty(),
    {
        let r = Categories { entries: Vec::new() };
        proof {
            assert(r@ =~= Seq::<(Seq<char>, Seq<ActionV>)>::empty());
        }
        r
    }

    /// Find the position of a category name.
    fn position_of(&self, name: &str) -> (r: Option<usize>)
        ensures
            match r {
                Some(i) => Some(i as int) == cat_find(self@, name@, 0),
                None => cat_find(self@, name@, 0) is None,
            },
    {
        let mut i: usize = 0;
        while i < self.entries.len()
            invariant
                0 <= i <= self.entries@.len(),
                self@.len() == self.entries@.len(),
                cat_find(self@, name@, 0) == cat_find(self@, name@, i as int),
            decreases self.entries@.len() - i,
        {
            proof {
                assert(self@[i as int].0 == self.entries@[i as int].0@);
            }
            if str_eq(self.entries[i].0.as_str(), name) {
                return Some(i);
            }
            i = i + 1;
        }
        None
    }

    /// File a (re)loaded plugin's actions under a category: each replaces
    /// any action it shares an id with and goes to the end; an unknown
    /// category is created, unless the batch is empty.
    pub fn register_actions(&mut self, category: String, actions: Vec<Action>)
        ensures
            match cat_find(old(self)@, category@, 0) {
                Some(ci) => final(self)@ == old(self)@.update(
                    ci,
                    (
                        old(self)@[ci].0,
                        spec_register_actions(old(self)@[ci].1, actions.deep_view()),
                    ),
                ),
                None => if actions.deep_view().len() > 0 {
                    final(self)@ == old(self)@.push((category@, actions.deep_view()))
                } else {
                    final(self)@ == old(self)@
                },
            },
    {
        proof {
            lemma_cat_find(self@, category@, 0);
        }
        match self.position_of(category.as_str()) {
            Some(ci) => {
                let ghost before = self@;
                let ghost key = self@[ci as int].0;
                let ghost list0 = self@[ci as int].1;
                let ghost pentries = self.entries@;
                let ghost acts = actions.deep_view();
                let n = actions.len();
                let mut batch = actions;
                proof {
                    assert(batch.deep_view() =~= acts.skip(0));
                }
                let mut taken: usize = 0;
                while taken < n
                    invariant
                        0 <= taken <= n,
                        ci < self.entries@.len(),
                        self.entries@.len() == pentries.len(),
                        n == acts.len(),
                        batch@.len() == n - taken,
                        batch.deep_view() == acts.skip(taken as int),
                        self@[ci as int].0 == key,
                        self@[ci as int].1 == spec_register_actions(
                            list0,
                            acts.take(taken as int),
                        ),
                        forall|m: int|
                            0 <= m < self@.len() && m != ci ==> #[trigger] self@[m] == before[m],
                        self@.len() == before.len(),
                    decreases n - taken,
                {
                    proof {
                        assert forall|m: int|
                            0 <= m < self@.len() && m != ci implies old_view_entry(
                            self.entries@,
                            m,
                        ) == before[m] by {
                            assert(self@[m] == (self.entries@[m].0@, self.entries@[m].1.deep_view()));
                        }
                        assert(acts.take(taken as int + 1).drop_last() =~= acts.take(
                            taken as int,
                        ));
                        assert(acts.take(taken as int + 1).last() == acts[taken as int]);
                        assert(batch.deep_view().len() == batch@.len());
                        assert(batch.deep_view()[0] == batch@[0]@);
                        assert(batch.deep_view()[0] == acts.skip(taken as int)[0]);
                        assert(acts.skip(taken as int)[0] == acts[taken as int]);
                    }
                    let ghost bprev = batch@;
                    let a = batch.remove(0);
                    proof {
                        assert forall|m: int|
                            0 <= m < batch.deep_view().len() implies #[trigger] batch.deep_view()[m]
                            == acts.skip(taken as int + 1)[m] by {
                            assert(batch.deep_view()[m] == batch@[m]@);
                            assert(batch@[m] == bprev[m + 1]);
                            assert(bprev[m + 1]@ == acts.skip(taken as int)[m + 1]);
                        }
                        assert(batch.deep_view() =~= acts.skip(taken as int + 1));
                    }
                    let ghost listb = self@[ci as int].1;
                    let pos = action_position(&self.entries[ci].1, a.uuid.as_str());
                    proof {
                        lemma_action_find(self.entries@[ci as int].1.deep_view(), a.uuid@, 0);
                        assert(self.entries@[ci as int].1.deep_view() == listb);
                    }
                    let ghost bentries = self.entries@;
                    let ghost av = a@;
                    let entry = &mut self.entries[ci];
                    proof {
                        assert(entry.1.deep_view() == listb);
                    }
                    match pos {
                        Some(p) => {
                            let ghost inner = entry.1.deep_view();
                            let ghost iprev = entry.1@;
                            entry.1.remove(p);
                            proof {
                                assert forall|m: int|
                                    0 <= m < entry.1.deep_view().len() implies #[trigger] entry.1.deep_view()[m]
                                    == inner.remove(p as int)[m] by {
                                    assert(entry.1.deep_view()[m] == entry.1@[m]@);
                                    if m < p {
                                        assert(entry.1@[m] == iprev[m]);
                                    } else {
                                        assert(entry.1@[m] == iprev[m + 1]);
                                    }
                                }
                                assert(entry.1.deep_view() =~= inner.remove(p as int));
                            }
                        },
                        None => {},
                    }
                    let ghost inner2 = entry.1.deep_view();
                    entry.1.push(a);
                    proof {
                        assert forall|m: int|
                            0 <= m < entry.1.deep_view().len() implies #[trigger] entry.1.deep_view()[m]
                            == if m < inner2.len() {
                            inner2[m]
                        } else {
                            av
                        } by {
                            assert(entry.1.deep_view()[m] == entry.1@[m]@);
                        }
                        assert(entry.1.deep_view() =~= inner2.push(av));
                        match pos {
                            Some(p) => {
                                assert(action_find(listb, av.uuid, 0) == Some(p as int));
                                assert(inner2 == listb.remove(p as int));
                            },
                            None => {
                                assert(action_find(listb, av.uuid, 0) is None);
                                assert(inner2 == listb);
                            },
                        }
                        assert(entry.1.deep_view() == spec_upsert_action(listb, av));
                        assert forall|m: int|
                            0 <= m < self@.len() && m != ci implies #[trigger] self@[m]
                            == before[m] by {
                            assert(self.entries@[m] == bentries[m]);
                            assert(self@[m] == (self.entries@[m].0@, self.entries@[m].1.deep_view()));
                            assert(old_view_entry(bentries, m) == before[m]);
                        }
                    }
                    taken = taken + 1;
                }
                proof {
                    assert(acts.take(n as int) =~= acts);
                    assert(self@ =~= before.update(ci as int, (key, self@[ci as int].1)));
                }
            },
            None => {
                if actions.len() > 0 {
                    let ghost before = self@;
                    let ghost acts = actions.deep_view();
                    let ghost cv = category@;
                    self.entries.push((category, actions));
                    proof {
                        assert(self@ =~= before.push((cv, acts)));
                    }
                }
            },
        }
    }

    /// Drop a plugin's actions from the whole catalogue; categories left
    /// empty leave too.
    pub fn remove_plugin(&mut self, plugin: &str)
        ensures
            final(self)@ == spec_remove_plugin_categories(old(self)@, plugin@),
    {
        let ghost s0 = self@;
        let mut out: Vec<(String, Vec<Action>)> = Vec::new();
        let mut i: usize = 0;
        proof {
            assert(cats_view(out@) =~= spec_remove_plugin_categories(s0.take(0), plugin@));
        }
        while i < self.entries.len()
            invariant
                0 <= i <= self.entries@.len(),
                s0 == self@,
                s0.len() == self.entries@.len(),
                cats_view(out@) == spec_remove_plugin_categories(s0.take(i as int), plugin@),
            decreases self.entries@.len() - i,
        {
            let ghost t = s0.take(i as int + 1);
            proof {
                assert(t.drop_last() =~= s0.take(i as int));
                assert(t.last() == s0[i as int]);
                assert(s0[i as int].1 == self.entries@[i as int].1.deep_view());
                assert(s0[i as int].0 == self.entries@[i as int].0@);
            }
            let ghost prev = cats_view(out@);
            let cleaned = retain_actions(&self.entries[i].1, plugin);
            if cleaned.len() > 0 {
                let ghost clv = cleaned.deep_view();
                out.push((self.entries[i].0.clone(), cleaned));
                proof {
                    assert forall|m: int| 0 <= m < out@.len() implies #[trigger] cats_view(out@)[m]
                        == if m < prev.len() {
                        prev[m]
                    } else {
                        (s0[i as int].0, clv)
                    } by {}
                    assert(cats_view(out@) =~= prev.push((s0[i as int].0, clv)));
                }
            }
            i = i + 1;
        }
        proof {
            assert(s0.take(s0.len() as int) =~= s0);
        }
        self.entries = out;
        proof {
            assert(self@ =~= cats_view(self.entries@));
        }
    }

    /// Every action id in the catalogue, in category and filing order; the
    /// live set an instance's action is checked against.
    pub fn action_uuids(&self) -> (r: Vec<String>)
        ensures
            r.deep_view() == spec_catalogue_uuids(self@),
    {
        let ghost s0 = self@;
        let mut out: Vec<String> = Vec::new();
        let mut i: usize = 0;
        proof {
            assert(out.deep_view() =~= spec_catalogue_uuids(s0.take(0)));
        }
        while i < self.entries.len()
            invariant
                0 <= i <= self.entries@.len(),
                s0 == self@,
                s0.len() == self.entries@.len(),
                out.deep_view() == spec_catalogue_uuids(s0.take(i as int)),
            decreases self.entries@.len() - i,
        {
            let ghost t = s0.take(i as int + 1);
            proof {
                assert(t.drop_last() =~= s0.take(i as int));
                assert(t.last() == s0[i as int]);
                assert(s0[i as int].1 == self.entries@[i as int].1.deep_view());
            }
            let ghost prev = out.deep_view();
            let list = &self.entries[i].1;
            let mut j: usize = 0;
            while j < list.len()
                invariant
                    0 <= j <= list@.len(),
                    list.deep_view() == s0[i as int].1,
                    out.deep_view() == prev + uuids_of(s0[i as int].1.take(j as int)),
                decreases list@.len() - j,
            {
                let ghost u = s0[i as int].1.take(j as int + 1);
                proof {
                    assert(u.drop_last() =~= s0[i as int].1.take(j as int));
                    assert(u.last() == s0[i as int].1[j as int]);
                    assert(list.deep_view()[j as int] == list@[j as int]@);
                }
                let ghost oprev = out.deep_view();
                out.push(list[j].uuid.clone());
                proof {
                    assert forall|m: int| 0 <= m < out.deep_view().len() implies #[trigger] out.deep_view()[m]
                        == if m < oprev.len() {
                        oprev[m]
                    } else {
                        s0[i as int].1[j as int].uuid
                    } by {
                        assert(out.deep_view()[m] == out@[m]@);
                    }
                    assert(out.deep_view() =~= oprev.push(s0[i as int].1[j as int].uuid));
                    assert(uuids_of(u) =~= uuids_of(s0[i as int].1.take(j as int)).push(
                        s0[i as int].1[j as int].uuid,
                    ));
                    assert(out.deep_view() =~= prev + uuids_of(u));
                }
                j = j + 1;
            }
            proof {
                assert(s0[i as int].1.take(s0[i as int].1.len() as int) =~= s0[i as int].1);
            }
            i = i + 1;
        }
        proof {
            assert(s0.take(s0.len() as int) =~= s0);
        }
        out
    }
}

/// The catalogue view of raw entries.
pub open spec fn cats_view(entries: Seq<(String, Vec<Action>)>) -> CategoriesV {
    Seq::new(entries.len(), |i: int| (entries[i].0@, entries[i].1.deep_view()))
}

/// The view of one raw entry.
pub open spec fn old_view_entry(entries: Seq<(String, Vec<Action>)>, m: int) -> (
    Seq<char>,
    Seq<ActionV>,
) {
    (entries[m].0@, entries[m].1.deep_view())
}

/// The ids of a category's actions, in order.
pub open spec fn uuids_of(list: Seq<ActionV>) -> Seq<Seq<char>>
    decreases list.len(),
{
    if list.len() == 0 {
        Seq::empty()
    } else {
        uuids_of(list.drop_last()).push(list.last().uuid)
    }
}

/// Every action id in a catalogue, in category and filing order.
pub open spec fn spec_catalogue_uuids(s: CategoriesV) -> Seq<Seq<char>>
    decreases s.len(),
{
    if s.len() == 0 {
        Seq::empty()
    } else {
        spec_catalogue_uuids(s.drop_last()) + uuids_of(s.last().1)
    }
}

/// What a successful or failed category search says about the entries.
proof fn lemma_cat_find(s: CategoriesV, k: Seq<char>, from: int)
    requires
        0 <= from <= s.len(),
    ensures
        match cat_find(s, k, from) {
            Some(i) => from <= i < s.len() && s[i].0 == k,
            None => true,
        },
    decreases s.len() - from,
{
    if from < s.len() && s[from].0 != k {
        lemma_cat_find(s, k, from + 1);
    }
}

/// What a successful or failed action-id search says about the list.
proof fn lemma_action_find(s: Seq<ActionV>, uuid: Seq<char>, from: int)
    requires
        0 <= from <= s.len(),
    ensures
        match action_find(s, uuid, from) {
            Some(i) => from <= i < s.len() && s[i].uuid == uuid,
            None => true,
        },
    decreases s.len() - from,
{
    if from < s.len() && s[from].uuid != uuid {
        lemma_action_find(s, uuid, from + 1);
    }
}

/// The actions of a category that do not belong to a plugin.
fn retain_actions(list: &Vec<Action>, plugin: &str) -> (r: Vec<Action>)
    ensures
        r.deep_view() == spec_retain_actions(list.deep_view(), plugin@),
{
    let mut out: Vec<Action> = Vec::new();
    let mut j: usize = 0;
    proof {
        assert(out.deep_view() =~= spec_retain_actions(list.deep_view().take(0), plugin@));
    }
    while j < list.len()
        invariant
            0 <= j <= list@.len(),
            out.deep_view() == spec_retain_actions(list.deep_view().take(j as int), plugin@),
        decreases list@.len() - j,
    {
        let ghost t = list.deep_view().take(j as int + 1);
        proof {
            assert(t.drop_last() =~= list.deep_view().take(j as int));
            assert(t.last() == list.deep_view()[j as int]);
            assert(list.deep_view()[j as int] == list@[j as int]@);
        }
        let ghost prev = out.deep_view();
        if !str_eq(list[j].plugin.as_str(), plugin) {
            out.push(dup_action(&list[j]));
            proof {
                assert forall|m: int| 0 <= m < out.deep_view().len() implies #[trigger] out.deep_view()[m]
                    == if m < prev.len() {
                    prev[m]
                } else {
                    list.deep_view()[j as int]
                } by {
                    assert(out.deep_view()[m] == out@[m]@);
                }
                assert(out.deep_view() =~= prev.push(list.deep_view()[j as int]));
            }
        }
        j = j + 1;
    }
    proof {
        assert(list.deep_view().take(list@.len() as int) =~= list.deep_view());
    }
    out
}


/// One installed plugin as listed to the frontend.
pub struct PluginInfo {
    pub id: String,
    pub name: String,
    pub author: String,
    pub icon: String,
    pub version: String,
    pub builtin: bool,
}

/// Summarize an installed plugin from its manifest for the frontend list.
pub fn plugin_info(
    id: String,
    manifest: &PluginManifest,
    icon: String,
    builtin: bool,
) -> (r: PluginInfo)
    ensures
        r.id@ == id@,
        r.name@ == manifest.name@,
        r.author@ == manifest.author@,
        r.icon@ == icon@,
        r.version@ == manifest.version@,
        r.builtin == builtin,
{
    PluginInfo {
        id,
        name: manifest.name.clone(),
        author: manifest.author.clone(),
        icon,
        version: manifest.version.clone(),
        builtin,
    }
}

} // verus!



