//! The shared data model: actions, action states, contexts and instances.
//!
//! An [`ActionContext`] is the address of one configured instance, written
//! on the wire as the delimited string `device.profile.controller.position.index`.
//! Formatting and parsing of that string are verified to agree.

use vstd::prelude::*;

use crate::text::{
    dec_rep, find_char_from, fmt_u16, fmt_u8, lemma_digit_not_dot, lemma_parse_dec_rep,
    lemma_spec_find, lemma_spec_find_unique, parse_dec_u16, parse_dec_u8, parse_nat, spec_find,
    str_eq, lemma_dec_rep_val,
};

verus! {

/// The class of physical input a slot belongs to.
#[derive(Clone, Copy, PartialEq, Eq, Structural, Debug)]
pub enum Controller {
    Keypad,
    Encoder,
}

/// The characters of a controller's wire name.
pub open spec fn ctrl_chars(c: Controller) -> Seq<char> {
    match c {
        Controller::Keypad => "Keypad"@,
        Controller::Encoder => "Encoder"@,
    }
}

/// The wire name of a controller.
pub fn controller_str(c: Controller) -> (r: &'static str)
    ensures
        r@ == ctrl_chars(c),
{
    match c {
        Controller::Keypad => "Keypad",
        Controller::Encoder => "Encoder",
    }
}

/// The controller a wire name denotes, if any.
pub open spec fn spec_controller_of(s: Seq<char>) -> Option<Controller> {
    if s == "Keypad"@ {
        Some(Controller::Keypad)
    } else if s == "Encoder"@ {
        Some(Controller::Encoder)
    } else {
        None
    }
}

/// Parse a controller's wire name.
pub fn controller_of(s: &str) -> (r: Option<Controller>)
    ensures
        r == spec_controller_of(s@),
{
    if str_eq(s, "Keypad") {
        Some(Controller::Keypad)
    } else if str_eq(s, "Encoder") {
        Some(Controller::Encoder)
    } else {
        None
    }
}

/// One visual state of an action.
pub struct ActionState {
    pub image: String,
    pub name: String,
    pub text: String,
    pub show: bool,
    pub colour: String,
    pub alignment: String,
    pub family: String,
    pub style: String,
    pub size: String,
    pub underline: bool,
}

/// Mathematical image of an action state.
pub ghost struct ActionStateV {
    pub image: Seq<char>,
    pub name: Seq<char>,
    pub text: Seq<char>,
    pub show: bool,
    pub colour: Seq<char>,
    pub alignment: Seq<char>,
    pub family: Seq<char>,
    pub style: Seq<char>,
    pub size: Seq<char>,
    pub underline: bool,
}

impl View for ActionState {
    type V = ActionStateV;

    open spec fn view(&self) -> ActionStateV {
        ActionStateV {
            image: self.image@,
            name: self.name@,
            text: self.text@,
            show: self.show,
            colour: self.colour@,
            alignment: self.alignment@,
            family: self.family@,
            style: self.style@,
            size: self.size@,
            underline: self.underline,
        }
    }
}

impl DeepView for ActionState {
    type V = ActionStateV;

    open spec fn deep_view(&self) -> ActionStateV {
        self.view()
    }
}

/// The action state every newly shown state starts from.
pub open spec fn default_action_state() -> ActionStateV {
    ActionStateV {
        image: "actionDefaultImage"@,
        name: Seq::empty(),
        text: Seq::empty(),
        show: true,
        colour: "#FFFFFF"@,
        alignment: "middle"@,
        family: "Liberation Sans"@,
        style: "Regular"@,
        size: "16"@,
        underline: false,
    }
}

impl Default for ActionState {
    fn default() -> (r: Self)
        ensures
            r@ == default_action_state(),
    {
        ActionState {
            image: "actionDefaultImage".to_owned(),
            name: String::new(),
            text: String::new(),
            show: true,
            colour: "#FFFFFF".to_owned(),
            alignment: "middle".to_owned(),
            family: "Liberation Sans".to_owned(),
            style: "Regular".to_owned(),
            size: "16".to_owned(),
            underline: false,
        }
    }
}

/// Copy an action state.
pub fn dup_action_state(s: &ActionState) -> (r: ActionState)
    ensures
        r@ == s@,
{
    ActionState {
        image: s.image.clone(),
        name: s.name.clone(),
        text: s.text.clone(),
        show: s.show,
        colour: s.colour.clone(),
        alignment: s.alignment.clone(),
        family: s.family.clone(),
        style: s.style.clone(),
        size: s.size.clone(),
        underline: s.underline,
    }
}

/// Copy a list of action states.
pub fn dup_action_states(v: &Vec<ActionState>) -> (r: Vec<ActionState>)
    ensures
        r.deep_view() == v.deep_view(),
{
    let mut out: Vec<ActionState> = Vec::new();
    let mut i: usize = 0;
    while i < v.len()
        invariant
            0 <= i <= v@.len(),
            out@.len() == i,
            forall|j: int| 0 <= j < i ==> out@[j]@ == v@[j]@,
        decreases v@.len() - i,
    {
        out.push(dup_action_state(&v[i]));
        i = i + 1;
    }
    proof {
        assert(out.deep_view() =~= v.deep_view());
    }
    out
}

/// A capability definition supplied by a plugin manifest.
pub struct Action {
    pub name: String,
    pub uuid: String,
    pub plugin: String,
    pub tooltip: String,
    pub icon: String,
    pub disable_automatic_states: bool,
    pub visible_in_action_list: bool,
    pub supported_in_multi_actions: bool,
    pub user_title_enabled: bool,
    pub property_inspector: String,
    pub controllers: Vec<String>,
    pub states: Vec<ActionState>,
}

/// Mathematical image of an action.
pub ghost struct ActionV {
    pub name: Seq<char>,
    pub uuid: Seq<char>,
    pub plugin: Seq<char>,
    pub tooltip: Seq<char>,
    pub icon: Seq<char>,
    pub disable_automatic_states: bool,
    pub visible_in_action_list: bool,
    pub supported_in_multi_actions: bool,
    pub user_title_enabled: bool,
    pub property_inspector: Seq<char>,
    pub controllers: Seq<Seq<char>>,
    pub states: Seq<ActionStateV>,
}

impl View for Action {
    type V = ActionV;

    open spec fn view(&self) -> ActionV {
        ActionV {
            name: self.name@,
            uuid: self.uuid@,
            plugin: self.plugin@,
            tooltip: self.tooltip@,
            icon: self.icon@,
            disable_automatic_states: self.disable_automatic_states,
            visible_in_action_list: self.visible_in_action_list,
            supported_in_multi_actions: self.supported_in_multi_actions,
            user_title_enabled: self.user_title_enabled,
            property_inspector: self.property_inspector@,
            controllers: self.controllers.deep_view(),
            states: self.states.deep_view(),
        }
    }
}

impl DeepView for Action {
    type V = ActionV;

    open spec fn deep_view(&self) -> ActionV {
        self.view()
    }
}

/// Copy a list of strings.
pub fn dup_strings(v: &Vec<String>) -> (r: Vec<String>)
    ensures
        r.deep_view() == v.deep_view(),
{
    let mut out: Vec<String> = Vec::new();
    let mut i: usize = 0;
    while i < v.len()
        invariant
            0 <= i <= v@.len(),
            out@.len() == i,
            forall|j: int| 0 <= j < i ==> out@[j]@ == v@[j]@,
        decreases v@.len() - i,
    {
        out.push(v[i].clone());
        i = i + 1;
    }
    proof {
        assert(out.deep_view() =~= v.deep_view());
    }
    out
}

/// Copy an action.
pub fn dup_action(a: &Action) -> (r: Action)
    ensures
        r@ == a@,
{
    Action {
        name: a.name.clone(),
        uuid: a.uuid.clone(),
        plugin: a.plugin.clone(),
        tooltip: a.tooltip.clone(),
        icon: a.icon.clone(),
        disable_automatic_states: a.disable_automatic_states,
        visible_in_action_list: a.visible_in_action_list,
        supported_in_multi_actions: a.supported_in_multi_actions,
        user_title_enabled: a.user_title_enabled,
        property_inspector: a.property_inspector.clone(),
        controllers: dup_strings(&a.controllers),
        states: dup_action_states(&a.states),
    }
}

/// Location of a slot: a device, a profile, and a position on one of the
/// device's controllers.
pub struct Context {
    pub device: String,
    pub profile: String,
    pub controller: Controller,
    pub position: u8,
}

/// Mathematical image of a slot location.
pub ghost struct ContextV {
    pub device: Seq<char>,
    pub profile: Seq<char>,
    pub controller: Controller,
    pub position: u8,
}

impl View for Context {
    type V = ContextV;

    open spec fn view(&self) -> ContextV {
        ContextV {
            device: self.device@,
            profile: self.profile@,
            controller: self.controller,
            position: self.position,
        }
    }
}

/// Copy a slot location.
pub fn dup_context(c: &Context) -> (r: Context)
    ensures
        r@ == c@,
{
    Context {
        device: c.device.clone(),
        profile: c.profile.clone(),
        controller: c.controller,
        position: c.position,
    }
}

/// The address of one configured instance; `index` zero is the slot's own
/// instance, higher indices address children stacked inside a container.
pub struct ActionContext {
    pub device: String,
    pub profile: String,
    pub controller: Controller,
    pub position: u8,
    pub index: u16,
}

/// Mathematical image of an instance address.
pub ghost struct ActionContextV {
    pub device: Seq<char>,
    pub profile: Seq<char>,
    pub controller: Controller,
    pub position: u8,
    pub index: u16,
}

impl View for ActionContext {
    type V = ActionContextV;

    open spec fn view(&self) -> ActionContextV {
        ActionContextV {
            device: self.device@,
            profile: self.profile@,
            controller: self.controller,
            position: self.position,
            index: self.index,
        }
    }
}

impl DeepView for ActionContext {
    type V = ActionContextV;

    open spec fn deep_view(&self) -> ActionContextV {
        self.view()
    }
}

impl ActionContext {
    /// The address of the instance with the given stacking index at a slot.
    pub fn from_context(context: Context, index: u16) -> (r: Self)
        ensures
            r@.device == context@.device,
            r@.profile == context@.profile,
            r@.controller == context@.controller,
            r@.position == context@.position,
            r@.index == index,
    {
        ActionContext {
            device: context.device,
            profile: context.profile,
            controller: context.controller,
            position: context.position,
            index,
        }
    }

    /// The slot an instance address points into.
    pub fn to_slot_context(&self) -> (r: Context)
        ensures
            r@.device == self@.device,
            r@.profile == self@.profile,
            r@.controller == self@.controller,
            r@.position == self@.position,
    {
        Context {
            device: self.device.clone(),
            profile: self.profile.clone(),
            controller: self.controller,
            position: self.position,
        }
    }
}

/// Copy an instance address.
pub fn dup_action_context(c: &ActionContext) -> (r: ActionContext)
    ensures
        r@ == c@,
{
    ActionContext {
        device: c.device.clone(),
        profile: c.profile.clone(),
        controller: c.controller,
        position: c.position,
        index: c.index,
    }
}

/// A child instance stacked inside a container at a slot. Children never
/// nest further, so they carry no child list of their own.
pub struct ChildInstance {
    pub action: Action,
    pub context: ActionContext,
    pub states: Vec<ActionState>,
    pub current_state: u16,
    pub settings: String,
}

/// A configured action at a context. `children` is present exactly on
/// container instances (multi actions and toggle actions).
pub struct ActionInstance {
    pub action: Action,
    pub context: ActionContext,
    pub states: Vec<ActionState>,
    pub current_state: u16,
    pub settings: String,
    pub children: Option<Vec<ChildInstance>>,
}

/// Mathematical image of an instance, child or top-level: a child is the
/// case whose `children` is absent.
pub ghost struct ActionInstanceV {
    pub action: ActionV,
    pub context: ActionContextV,
    pub states: Seq<ActionStateV>,
    pub current_state: u16,
    pub settings: Seq<char>,
    pub children: Option<Seq<ActionInstanceV>>,
}

impl View for ChildInstance {
    type V = ActionInstanceV;

    open spec fn view(&self) -> ActionInstanceV {
        ActionInstanceV {
            action: self.action@,
            context: self.context@,
            states: self.states.deep_view(),
            current_state: self.current_state,
            settings: self.settings@,
            children: None,
        }
    }
}

impl DeepView for ChildInstance {
    type V = ActionInstanceV;

    open spec fn deep_view(&self) -> ActionInstanceV {
        self.view()
    }
}

impl View for ActionInstance {
    type V = ActionInstanceV;

    open spec fn view(&self) -> ActionInstanceV {
        ActionInstanceV {
            action: self.action@,
            context: self.context@,
            states: self.states.deep_view(),
            current_state: self.current_state,
            settings: self.settings@,
            children: match self.children {
                Some(v) => Some(v.deep_view()),
                None => None,
            },
        }
    }
}

impl DeepView for ActionInstance {
    type V = ActionInstanceV;

    open spec fn deep_view(&self) -> ActionInstanceV {
        self.view()
    }
}

/// Copy a child instance.
pub fn dup_child_instance(c: &ChildInstance) -> (r: ChildInstance)
    ensures
        r@ == c@,
{
    ChildInstance {
        action: dup_action(&c.action),
        context: dup_action_context(&c.context),
        states: dup_action_states(&c.states),
        current_state: c.current_state,
        settings: c.settings.clone(),
    }
}

/// Copy a list of child instances.
pub fn dup_child_instances(v: &Vec<ChildInstance>) -> (r: Vec<ChildInstance>)
    ensures
        r.deep_view() == v.deep_view(),
{
    let mut out: Vec<ChildInstance> = Vec::new();
    let mut i: usize = 0;
    while i < v.len()
        invariant
            0 <= i <= v@.len(),
            out@.len() == i,
            forall|j: int| 0 <= j < i ==> out@[j]@ == v@[j]@,
        decreases v@.len() - i,
    {
        out.push(dup_child_instance(&v[i]));
        i = i + 1;
    }
    proof {
        assert(out.deep_view() =~= v.deep_view());
    }
    out
}

/// Copy an instance, children included.
pub fn dup_instance(i: &ActionInstance) -> (r: ActionInstance)
    ensures
        r@ == i@,
{
    ActionInstance {
        action: dup_action(&i.action),
        context: dup_action_context(&i.context),
        states: dup_action_states(&i.states),
        current_state: i.current_state,
        settings: i.settings.clone(),
        children: match &i.children {
            Some(cs) => Some(dup_child_instances(cs)),
            None => None,
        },
    }
}

/// A child instance taken on its own, as sent to plugins.
pub fn child_as_instance(c: &ChildInstance) -> (r: ActionInstance)
    ensures
        r@ == c@,
{
    ActionInstance {
        action: dup_action(&c.action),
        context: dup_action_context(&c.context),
        states: dup_action_states(&c.states),
        current_state: c.current_state,
        settings: c.settings.clone(),
        children: None,
    }
}

/// Whether an instance is well formed for the slot it sits in: its context
/// names the slot with index zero, and each child repeats the slot's
/// coordinates with a positive, strictly increasing index.
pub open spec fn wf_instance(i: ActionInstanceV, slot: ContextV) -> bool {
    &&& i.context.device == slot.device
    &&& i.context.profile == slot.profile
    &&& i.context.controller == slot.controller
    &&& i.context.position == slot.position
    &&& i.context.index == 0
    &&& match i.children {
        Some(cs) => {
            &&& forall|j: int| 0 <= j < cs.len() ==> (#[trigger] cs[j]).context.device
                == slot.device && cs[j].context.profile == slot.profile
                && cs[j].context.controller == slot.controller && cs[j].context.position
                == slot.position && cs[j].context.index >= 1 && cs[j].children is None
            &&& forall|j: int, k: int|
                0 <= j < k < cs.len() ==> (#[trigger] cs[j]).context.index < (
                #[trigger] cs[k]).context.index
        },
        None => true,
    }
}

/// One named grid configuration for one device: a slot per key position
/// and a slot per encoder.
pub struct Profile {
    pub id: String,
    pub keys: Vec<Option<ActionInstance>>,
    pub sliders: Vec<Option<ActionInstance>>,
}

/// Mathematical image of a profile.
pub ghost struct ProfileV {
    pub id: Seq<char>,
    pub keys: Seq<Option<ActionInstanceV>>,
    pub sliders: Seq<Option<ActionInstanceV>>,
}

impl View for Profile {
    type V = ProfileV;

    open spec fn view(&self) -> ProfileV {
        ProfileV {
            id: self.id@,
            keys: self.keys.deep_view(),
            sliders: self.sliders.deep_view(),
        }
    }
}

/// The slot location of a position on one of a profile's controllers.
pub open spec fn slot_context(device: Seq<char>, profile: Seq<char>, c: Controller, p: u8) -> ContextV {
    ContextV { device, profile, controller: c, position: p }
}

/// Whether a profile is well formed for the device it belongs to: slots
/// fit the grid, and every configured instance is addressed by the slot
/// that holds it.
pub open spec fn wf_profile(p: ProfileV, device: Seq<char>) -> bool {
    &&& p.keys.len() <= 256
    &&& p.sliders.len() <= 256
    &&& forall|k: int| 0 <= k < p.keys.len() ==> match #[trigger] p.keys[k] {
        Some(i) => wf_instance(i, slot_context(device, p.id, Controller::Keypad, k as u8)),
        None => true,
    }
    &&& forall|k: int| 0 <= k < p.sliders.len() ==> match #[trigger] p.sliders[k] {
        Some(i) => wf_instance(i, slot_context(device, p.id, Controller::Encoder, k as u8)),
        None => true,
    }
}

/// Whether two instance addresses are the same.
pub fn action_context_eq(a: &ActionContext, b: &ActionContext) -> (r: bool)
    ensures
        r == (a@ == b@),
{
    let r = str_eq(a.device.as_str(), b.device.as_str()) && str_eq(
        a.profile.as_str(),
        b.profile.as_str(),
    ) && a.controller == b.controller && a.position == b.position && a.index == b.index;
    proof {
        if a@.device == b@.device && a@.profile == b@.profile && a@.controller == b@.controller
            && a@.position == b@.position && a@.index == b@.index {
            assert(a@ == b@);
        }
    }
    r
}

/// The wire string of an instance address:
/// `device.profile.controller.position.index`.
pub open spec fn spec_format_context(c: ActionContextV) -> Seq<char> {
    c.device + seq!['.'] + c.profile + seq!['.'] + ctrl_chars(c.controller) + seq!['.'] + dec_rep(
        c.position as nat,
    ) + seq!['.'] + dec_rep(c.index as nat)
}

/// What parsing a wire string yields: the five fields, or nothing when the
/// string does not have the shape formatting produces.
pub open spec fn spec_parse_context(s: Seq<char>) -> Option<ActionContextV> {
    match spec_find(s, '.', 0) {
        None => None,
        Some(i1) => match spec_find(s, '.', i1 + 1) {
            None => None,
            Some(i2) => match spec_find(s, '.', i2 + 1) {
                None => None,
                Some(i3) => match spec_find(s, '.', i3 + 1) {
                    None => None,
                    Some(i4) => {
                        let ctrl = spec_controller_of(s.subrange(i2 + 1, i3));
                        let pos = parse_nat(s.subrange(i3 + 1, i4));
                        let idx = parse_nat(s.subrange(i4 + 1, s.len() as int));
                        match (ctrl, pos, idx) {
                            (Some(c), Some(p), Some(x)) => if p <= u8::MAX as nat && x
                                <= u16::MAX as nat {
                                Some(
                                    ActionContextV {
                                        device: s.subrange(0, i1),
                                        profile: s.subrange(i1 + 1, i2),
                                        controller: c,
                                        position: p as u8,
                                        index: x as u16,
                                    },
                                )
                            } else {
                                None
                            },
                            _ => None,
                        }
                    },
                },
            },
        },
    }
}

impl ActionContext {
    /// Write the address as its wire string.
    pub fn encode(&self) -> (s: String)
        ensures
            s@ == spec_format_context(self@),
    {
        let mut s = self.device.as_str().to_owned();
        s.append(".");
        s.append(self.profile.as_str());
        s.append(".");
        s.append(controller_str(self.controller));
        s.append(".");
        let pos = fmt_u8(self.position);
        s.append(pos.as_str());
        s.append(".");
        let idx = fmt_u16(self.index);
        s.append(idx.as_str());
        proof {
            reveal_strlit(".");
            assert("."@ =~= seq!['.']);
            assert(s@ =~= spec_format_context(self@));
        }
        s
    }

    /// Read an address back from its wire string.
    pub fn decode(s: &str) -> (r: Option<ActionContext>)
        ensures
            match r {
                Some(c) => spec_parse_context(s@) == Some(c@),
                None => spec_parse_context(s@) is None,
            },
    {
        let len = s.unicode_len();
        let i1 = match find_char_from(s, '.', 0) {
            Some(i) => i,
            None => {
                return None;
            },
        };
        proof {
            lemma_spec_find(s@, '.', 0);
        }
        let i2 = match find_char_from(s, '.', i1 + 1) {
            Some(i) => i,
            None => {
                return None;
            },
        };
        proof {
            lemma_spec_find(s@, '.', i1 as int + 1);
        }
        let i3 = match find_char_from(s, '.', i2 + 1) {
            Some(i) => i,
            None => {
                return None;
            },
        };
        proof {
            lemma_spec_find(s@, '.', i2 as int + 1);
        }
        let i4 = match find_char_from(s, '.', i3 + 1) {
            Some(i) => i,
            None => {
                return None;
            },
        };
        proof {
            lemma_spec_find(s@, '.', i3 as int + 1);
        }
        let controller = match controller_of(s.substring_char(i2 + 1, i3)) {
            Some(c) => c,
            None => {
                return None;
            },
        };
        let position = match parse_dec_u8(s.substring_char(i3 + 1, i4)) {
            Some(p) => p,
            None => {
                return None;
            },
        };
        let index = match parse_dec_u16(s.substring_char(i4 + 1, len)) {
            Some(x) => x,
            None => {
                return None;
            },
        };
        Some(
            ActionContext {
                device: s.substring_char(0, i1).to_owned(),
                profile: s.substring_char(i1 + 1, i2).to_owned(),
                controller,
                position,
                index,
            },
        )
    }
}

/// A controller's wire name is never empty and never holds the separator.
pub proof fn lemma_ctrl_dot_free(c: Controller)
    ensures
        ctrl_chars(c).len() >= 1,
        forall|i: int| 0 <= i < ctrl_chars(c).len() ==> ctrl_chars(c)[i] != '.',
{
    reveal_strlit("Keypad");
    reveal_strlit("Encoder");
    match c {
        Controller::Keypad => {
            assert forall|i: int| 0 <= i < ctrl_chars(c).len() implies ctrl_chars(c)[i]
                != '.' by {
                assert("Keypad"@[0] == 'K');
                assert("Keypad"@[1] == 'e');
                assert("Keypad"@[2] == 'y');
                assert("Keypad"@[3] == 'p');
                assert("Keypad"@[4] == 'a');
                assert("Keypad"@[5] == 'd');
            }
        },
        Controller::Encoder => {
            assert forall|i: int| 0 <= i < ctrl_chars(c).len() implies ctrl_chars(c)[i]
                != '.' by {
                assert("Encoder"@[0] == 'E');
                assert("Encoder"@[1] == 'n');
                assert("Encoder"@[2] == 'c');
                assert("Encoder"@[3] == 'o');
                assert("Encoder"@[4] == 'd');
                assert("Encoder"@[5] == 'e');
                assert("Encoder"@[6] == 'r');
            }
        },
    }
}

/// Reading a controller's wire name gives the controller back.
pub proof fn lemma_ctrl_chars_parse(c: Controller)
    ensures
        spec_controller_of(ctrl_chars(c)) == Some(c),
{
    reveal_strlit("Keypad");
    reveal_strlit("Encoder");
    match c {
        Controller::Keypad => {
        },
        Controller::Encoder => {
            assert("Encoder"@.len() == 7);
            assert("Keypad"@.len() == 6);
            assert(ctrl_chars(c) != "Keypad"@);
        },
    }
}

/// Parsing the wire string of an address gives the address back, as long
/// as the device and profile names hold no separator.
pub proof fn lemma_context_round_trip(c: ActionContextV)
    requires
        !c.device.contains('.'),
        !c.profile.contains('.'),
    ensures
        spec_parse_context(spec_format_context(c)) == Some(c),
{
    let d = c.device;
    let p = c.profile;
    let t = ctrl_chars(c.controller);
    let a = dec_rep(c.position as nat);
    let b = dec_rep(c.index as nat);
    let dot = seq!['.'];
    let f = spec_format_context(c);
    lemma_dec_rep_val(c.position as nat);
    lemma_dec_rep_val(c.index as nat);
    lemma_ctrl_dot_free(c.controller);
    lemma_ctrl_chars_parse(c.controller);
    let i1 = d.len() as int;
    let i2 = i1 + 1 + p.len();
    let i3 = i2 + 1 + t.len();
    let i4 = i3 + 1 + a.len();
    let n = i4 + 1 + b.len();
    assert(f.len() == n);
    assert forall|j: int| 0 <= j < i1 implies f[j] == d[j] by {}
    assert(f[i1] == '.');
    assert forall|j: int| i1 + 1 <= j < i2 implies f[j] == p[j - (i1 + 1)] by {}
    assert(f[i2] == '.');
    assert forall|j: int| i2 + 1 <= j < i3 implies f[j] == t[j - (i2 + 1)] by {}
    assert(f[i3] == '.');
    assert forall|j: int| i3 + 1 <= j < i4 implies f[j] == a[j - (i3 + 1)] by {}
    assert(f[i4] == '.');
    assert forall|j: int| i4 + 1 <= j < n implies f[j] == b[j - (i4 + 1)] by {}
    assert forall|j: int| 0 <= j < i1 implies f[j] != '.' by {
        if d[j] == '.' {
            assert(d.contains('.'));
        }
    }
    lemma_spec_find_unique(f, '.', 0, i1);
    assert forall|j: int| i1 + 1 <= j < i2 implies f[j] != '.' by {
        if p[j - (i1 + 1)] == '.' {
            assert(p.contains('.'));
        }
    }
    lemma_spec_find_unique(f, '.', i1 + 1, i2);
    assert forall|j: int| i2 + 1 <= j < i3 implies f[j] != '.' by {}
    lemma_spec_find_unique(f, '.', i2 + 1, i3);
    assert forall|j: int| i3 + 1 <= j < i4 implies f[j] != '.' by {
        lemma_digit_not_dot(a[j - (i3 + 1)]);
    }
    lemma_spec_find_unique(f, '.', i3 + 1, i4);
    assert(f.subrange(0, i1) =~= d);
    assert(f.subrange(i1 + 1, i2) =~= p);
    assert(f.subrange(i2 + 1, i3) =~= t);
    assert(f.subrange(i3 + 1, i4) =~= a);
    assert(f.subrange(i4 + 1, n) =~= b);
    lemma_parse_dec_rep(c.position as nat);
    lemma_parse_dec_rep(c.index as nat);
    assert(spec_parse_context(f) == Some(c));
}

} // verus!
