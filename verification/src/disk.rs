//! The on-disk shape of profiles.
//!
//! A profile file leaves out the device and profile names, which the file's
//! location already gives: contexts shrink to `controller.position.index`.
//! Inline `data:` images move out to files named by state index — the
//! library decides name and bytes, the caller writes them — and loading
//! rebases such names below the images directory. Converting a profile to
//! its disk shape and back reconstructs it exactly, up to those normalized
//! image paths; see [`lemma_profile_disk_round_trip`].

use vstd::prelude::*;

use base64::Engine;

use crate::shared::{
    Action, ActionContext, ActionContextV, ActionInstance, ActionInstanceV, ActionState,
    ActionStateV, ActionV, ChildInstance, Controller, ctrl_chars, controller_of, controller_str,
    dup_action, dup_action_states, spec_controller_of, wf_instance, wf_profile, Profile, ProfileV,
    slot_context, default_action_state, lemma_ctrl_dot_free, lemma_ctrl_chars_parse,
};
use crate::text::{
    dec_rep, find_char_from, find_sub, fmt_u16, fmt_u8, is_digit, lemma_dec_rep_val,
    lemma_digit_not_dot, lemma_parse_dec_rep, lemma_spec_find, lemma_spec_find_none,
    lemma_spec_find_unique, parse_dec_u16, parse_dec_u8, parse_nat, replace_all, spec_find,
    spec_find_sub, spec_replace_all,
};

verus! {

/// An instance address as stored on disk: the file's location gives the
/// device and profile, so only the slot coordinates remain.
pub struct DiskActionContext {
    pub controller: Controller,
    pub position: u8,
    pub index: u16,
}

/// Mathematical image of a disk address.
pub ghost struct DiskActionContextV {
    pub controller: Controller,
    pub position: u8,
    pub index: u16,
}

impl View for DiskActionContext {
    type V = DiskActionContextV;

    open spec fn view(&self) -> DiskActionContextV {
        DiskActionContextV {
            controller: self.controller,
            position: self.position,
            index: self.index,
        }
    }
}

/// Narrow a full address to its disk shape.
pub open spec fn spec_ctx_to_disk(c: ActionContextV) -> DiskActionContextV {
    DiskActionContextV { controller: c.controller, position: c.position, index: c.index }
}

/// Widen a disk address with the device and profile its file stands for.
pub open spec fn spec_ctx_from_disk(
    d: DiskActionContextV,
    device: Seq<char>,
    profile: Seq<char>,
) -> ActionContextV {
    ActionContextV {
        device,
        profile,
        controller: d.controller,
        position: d.position,
        index: d.index,
    }
}

impl DiskActionContext {
    /// Narrow a full address to its disk shape.
    pub fn from_action_context(c: &ActionContext) -> (r: Self)
        ensures
            r@ == spec_ctx_to_disk(c@),
    {
        DiskActionContext { controller: c.controller, position: c.position, index: c.index }
    }

    /// Widen this disk address with the device and profile its file stands
    /// for.
    pub fn into_action_context(self, device: String, profile: String) -> (r: ActionContext)
        ensures
            r@ == spec_ctx_from_disk(self@, device@, profile@),
    {
        ActionContext {
            device,
            profile,
            controller: self.controller,
            position: self.position,
            index: self.index,
        }
    }

    /// Write the disk address as its string form
    /// `controller.position.index`.
    pub fn encode(&self) -> (s: String)
        ensures
            s@ == spec_format_disk_context(self@),
    {
        let mut s = controller_str(self.controller).to_owned();
        s.append(".");
        let pos = fmt_u8(self.position);
        s.append(pos.as_str());
        s.append(".");
        let idx = fmt_u16(self.index);
        s.append(idx.as_str());
        proof {
            reveal_strlit(".");
            assert("."@ =~= seq!['.']);
            assert(s@ =~= spec_format_disk_context(self@));
        }
        s
    }

    /// Read a disk address back from its string form. A five-part string,
    /// the shape of a full address from older files, is accepted too: its
    /// first two parts are ignored.
    pub fn decode(s: &str) -> (r: Option<DiskActionContext>)
        ensures
            match r {
                Some(c) => spec_parse_disk_context(s@) == Some(c@),
                None => spec_parse_disk_context(s@) is None,
            },
    {
        let len = s.unicode_len();
        let i1 = match find_char_from(s, '.', 0) {
            Some(i) => i,
            None => {
                return None;
            },
        };
        proof {
            lemma_spec_find(s@, '.', 0);
        }
        let i2 = match find_char_from(s, '.', i1 + 1) {
            Some(i) => i,
            None => {
                return None;
            },
        };
        proof {
            lemma_spec_find(s@, '.', i1 as int + 1);
        }
        match find_char_from(s, '.', i2 + 1) {
            None => {
                let controller = match controller_of(s.substring_char(0, i1)) {
                    Some(c) => c,
                    None => {
                        return None;
                    },
                };
                let position = match parse_dec_u8(s.substring_char(i1 + 1, i2)) {
                    Some(p) => p,
                    None => {
                        return None;
                    },
                };
                let index = match parse_dec_u16(s.substring_char(i2 + 1, len)) {
                    Some(x) => x,
                    None => {
                        return None;
                    },
                };
                Some(DiskActionContext { controller, position, index })
            },
            Some(i3) => {
                proof {
                    lemma_spec_find(s@, '.', i2 as int + 1);
                }
                let i4 = match find_char_from(s, '.', i3 + 1) {
                    Some(i) => i,
                    None => {
                        return None;
                    },
                };
                proof {
                    lemma_spec_find(s@, '.', i3 as int + 1);
                }
                let controller = match controller_of(s.substring_char(i2 + 1, i3)) {
                    Some(c) => c,
                    None => {
                        return None;
                    },
                };
                let position = match parse_dec_u8(s.substring_char(i3 + 1, i4)) {
                    Some(p) => p,
                    None => {
                        return None;
                    },
                };
                let index = match parse_dec_u16(s.substring_char(i4 + 1, len)) {
                    Some(x) => x,
                    None => {
                        return None;
                    },
                };
                Some(DiskActionContext { controller, position, index })
            },
        }
    }
}

/// The string form of a disk address.
pub open spec fn spec_format_disk_context(c: DiskActionContextV) -> Seq<char> {
    ctrl_chars(c.controller) + seq!['.'] + dec_rep(c.position as nat) + seq!['.'] + dec_rep(
        c.index as nat,
    )
}

/// What parsing a disk address string yields.
pub open spec fn spec_parse_disk_context(s: Seq<char>) -> Option<DiskActionContextV> {
    match spec_find(s, '.', 0) {
        None => None,
        Some(i1) => match spec_find(s, '.', i1 + 1) {
            None => None,
            Some(i2) => match spec_find(s, '.', i2 + 1) {
                None => spec_disk_fields(
                    s.subrange(0, i1),
                    s.subrange(i1 + 1, i2),
                    s.subrange(i2 + 1, s.len() as int),
                ),
                Some(i3) => match spec_find(s, '.', i3 + 1) {
                    None => None,
                    Some(i4) => spec_disk_fields(
                        s.subrange(i2 + 1, i3),
                        s.subrange(i3 + 1, i4),
                        s.subrange(i4 + 1, s.len() as int),
                    ),
                },
            },
        },
    }
}

/// The disk address three raw parts denote, if each is valid.
pub open spec fn spec_disk_fields(
    ctrl: Seq<char>,
    pos: Seq<char>,
    idx: Seq<char>,
) -> Option<DiskActionContextV> {
    match (spec_controller_of(ctrl), parse_nat(pos), parse_nat(idx)) {
        (Some(c), Some(p), Some(x)) => if p <= u8::MAX as nat && x <= u16::MAX as nat {
            Some(DiskActionContextV { controller: c, position: p as u8, index: x as u16 })
        } else {
            None
        },
        _ => None,
    }
}

/// A child instance as stored on disk.
pub struct DiskChildInstance {
    pub action: Action,
    pub context: DiskActionContext,
    pub states: Vec<ActionState>,
    pub current_state: u16,
    pub settings: String,
}

/// An instance as stored on disk.
pub struct DiskActionInstance {
    pub action: Action,
    pub context: DiskActionContext,
    pub states: Vec<ActionState>,
    pub current_state: u16,
    pub settings: String,
    pub children: Option<Vec<DiskChildInstance>>,
}

/// Mathematical image of a disk instance, child or top-level.
pub ghost struct DiskActionInstanceV {
    pub action: ActionV,
    pub context: DiskActionContextV,
    pub states: Seq<ActionStateV>,
    pub current_state: u16,
    pub settings: Seq<char>,
    pub children: Option<Seq<DiskActionInstanceV>>,
}

impl View for DiskChildInstance {
    type V = DiskActionInstanceV;

    open spec fn view(&self) -> DiskActionInstanceV {
        DiskActionInstanceV {
            action: self.action@,
            context: self.context@,
            states: self.states.deep_view(),
            current_state: self.current_state,
            settings: self.settings@,
            children: None,
        }
    }
}

impl DeepView for DiskChildInstance {
    type V = DiskActionInstanceV;

    open spec fn deep_view(&self) -> DiskActionInstanceV {
        self.view()
    }
}

impl View for DiskActionInstance {
    type V = DiskActionInstanceV;

    open spec fn view(&self) -> DiskActionInstanceV {
        DiskActionInstanceV {
            action: self.action@,
            context: self.context@,
            states: self.states.deep_view(),
            current_state: self.current_state,
            settings: self.settings@,
            children: match self.children {
                Some(v) => Some(v.deep_view()),
                None => None,
            },
        }
    }
}

impl DeepView for DiskActionInstance {
    type V = DiskActionInstanceV;

    open spec fn deep_view(&self) -> DiskActionInstanceV {
        self.view()
    }
}

/// A profile as stored on disk: the name it is filed under is not repeated
/// inside the file.
pub struct DiskProfile {
    pub keys: Vec<Option<DiskActionInstance>>,
    pub sliders: Vec<Option<DiskActionInstance>>,
}

/// Mathematical image of a disk profile.
pub ghost struct DiskProfileV {
    pub keys: Seq<Option<DiskActionInstanceV>>,
    pub sliders: Seq<Option<DiskActionInstanceV>>,
}

impl View for DiskProfile {
    type V = DiskProfileV;

    open spec fn view(&self) -> DiskProfileV {
        DiskProfileV { keys: self.keys.deep_view(), sliders: self.sliders.deep_view() }
    }
}

/// Narrow a childless instance to its disk shape.
pub open spec fn spec_child_to_disk(c: ActionInstanceV) -> DiskActionInstanceV {
    DiskActionInstanceV {
        action: c.action,
        context: spec_ctx_to_disk(c.context),
        states: c.states,
        current_state: c.current_state,
        settings: c.settings,
        children: None,
    }
}

/// Narrow an instance, children included, to its disk shape.
pub open spec fn spec_inst_to_disk(i: ActionInstanceV) -> DiskActionInstanceV {
    DiskActionInstanceV {
        action: i.action,
        context: spec_ctx_to_disk(i.context),
        states: i.states,
        current_state: i.current_state,
        settings: i.settings,
        children: match i.children {
            Some(cs) => Some(cs.map_values(|c: ActionInstanceV| spec_child_to_disk(c))),
            None => None,
        },
    }
}

/// An image name as it comes back from disk: a bare externalized file
/// name — it starts with its state index, a digit — is rebased under the
/// instance's own directory below the profile's images root; anything
/// else is left alone.
pub open spec fn spec_rebased_image(
    img: Seq<char>,
    images_root: Seq<char>,
    ctx: DiskActionContextV,
) -> Seq<char> {
    if img.len() > 0 && is_digit(img[0]) {
        images_root + seq!['/'] + spec_format_disk_context(ctx) + seq!['/'] + img
    } else {
        img
    }
}

/// A state list as it comes back from disk, every image rebased.
pub open spec fn spec_rebased_states(
    states: Seq<ActionStateV>,
    images_root: Seq<char>,
    ctx: DiskActionContextV,
) -> Seq<ActionStateV> {
    Seq::new(
        states.len(),
        |i: int| ActionStateV { image: spec_rebased_image(states[i].image, images_root, ctx), ..states[i] },
    )
}

/// Widen a childless disk instance with its file's device and profile,
/// rebasing externalized image names below the images root.
pub open spec fn spec_child_from_disk(
    d: DiskActionInstanceV,
    device: Seq<char>,
    profile: Seq<char>,
    images_root: Seq<char>,
) -> ActionInstanceV {
    ActionInstanceV {
        action: d.action,
        context: spec_ctx_from_disk(d.context, device, profile),
        states: spec_rebased_states(d.states, images_root, d.context),
        current_state: d.current_state,
        settings: d.settings,
        children: None,
    }
}

/// Widen a disk instance, children included, with its file's device and
/// profile, rebasing externalized image names below the images root.
pub open spec fn spec_inst_from_disk(
    d: DiskActionInstanceV,
    device: Seq<char>,
    profile: Seq<char>,
    images_root: Seq<char>,
) -> ActionInstanceV {
    ActionInstanceV {
        action: d.action,
        context: spec_ctx_from_disk(d.context, device, profile),
        states: spec_rebased_states(d.states, images_root, d.context),
        current_state: d.current_state,
        settings: d.settings,
        children: match d.children {
            Some(cs) => Some(
                cs.map_values(
                    |c: DiskActionInstanceV| spec_child_from_disk(c, device, profile, images_root),
                ),
            ),
            None => None,
        },
    }
}

/// Narrow a profile to its disk shape.
pub open spec fn spec_profile_to_disk(p: ProfileV) -> DiskProfileV {
    DiskProfileV {
        keys: p.keys.map_values(
            |o: Option<ActionInstanceV>|
                match o {
                    Some(i) => Some(spec_inst_to_disk(i)),
                    None => None,
                },
        ),
        sliders: p.sliders.map_values(
            |o: Option<ActionInstanceV>|
                match o {
                    Some(i) => Some(spec_inst_to_disk(i)),
                    None => None,
                },
        ),
    }
}

/// Widen a disk profile with the device and profile name its file stands
/// for, rebasing externalized image names below the images root.
pub open spec fn spec_profile_from_disk(
    d: DiskProfileV,
    device: Seq<char>,
    id: Seq<char>,
    images_root: Seq<char>,
) -> ProfileV {
    ProfileV {
        id,
        keys: d.keys.map_values(
            |o: Option<DiskActionInstanceV>|
                match o {
                    Some(i) => Some(spec_inst_from_disk(i, device, id, images_root)),
                    None => None,
                },
        ),
        sliders: d.sliders.map_values(
            |o: Option<DiskActionInstanceV>|
                match o {
                    Some(i) => Some(spec_inst_from_disk(i, device, id, images_root)),
                    None => None,
                },
        ),
    }
}

/// Narrow a child to its disk shape.
pub fn child_to_disk(c: &ChildInstance) -> (r: DiskChildInstance)
    ensures
        r@ == spec_child_to_disk(c@),
{
    DiskChildInstance {
        action: dup_action(&c.action),
        context: DiskActionContext::from_action_context(&c.context),
        states: dup_action_states(&c.states),
        current_state: c.current_state,
        settings: c.settings.clone(),
    }
}

/// Narrow an instance, children included, to its disk shape.
pub fn instance_to_disk(i: &ActionInstance) -> (r: DiskActionInstance)
    ensures
        r@ == spec_inst_to_disk(i@),
{
    let children: Option<Vec<DiskChildInstance>> = match &i.children {
        Some(cs) => {
            let mut out: Vec<DiskChildInstance> = Vec::new();
            let mut k: usize = 0;
            while k < cs.len()
                invariant
                    0 <= k <= cs@.len(),
                    out@.len() == k,
                    forall|j: int| 0 <= j < k ==> out@[j]@ == spec_child_to_disk(cs@[j]@),
                decreases cs@.len() - k,
            {
                out.push(child_to_disk(&cs[k]));
                k = k + 1;
            }
            Some(out)
        },
        None => None,
    };
    let r = DiskActionInstance {
        action: dup_action(&i.action),
        context: DiskActionContext::from_action_context(&i.context),
        states: dup_action_states(&i.states),
        current_state: i.current_state,
        settings: i.settings.clone(),
        children,
    };
    proof {
        match (&i.children, &r.children) {
            (Some(cs), Some(out)) => {
                assert(out.deep_view() =~= cs.deep_view().map_values(
                    |c: ActionInstanceV| spec_child_to_disk(c),
                ));
            },
            _ => {},
        }
    }
    r
}

/// Rebase one image name coming back from disk.
fn rebase_image(img: &str, images_root: &str, ctx: &DiskActionContext) -> (r: String)
    ensures
        r@ == spec_rebased_image(img@, images_root@, ctx@),
{
    let len = img.unicode_len();
    if len > 0 {
        let c = img.get_char(0) as u32;
        if 48 <= c && c <= 57 {
            let mut s = images_root.to_owned();
            s.append("/");
            let dir = ctx.encode();
            s.append(dir.as_str());
            s.append("/");
            s.append(img);
            proof {
                reveal_strlit("/");
                assert("/"@ =~= seq!['/']);
                assert(s@ =~= spec_rebased_image(img@, images_root@, ctx@));
            }
            return s;
        }
    }
    img.to_owned()
}

/// Rebase a state list coming back from disk.
fn rebase_states(
    states: &Vec<ActionState>,
    images_root: &str,
    ctx: &DiskActionContext,
) -> (r: Vec<ActionState>)
    ensures
        r.deep_view() == spec_rebased_states(states.deep_view(), images_root@, ctx@),
{
    let mut out: Vec<ActionState> = Vec::new();
    let mut i: usize = 0;
    while i < states.len()
        invariant
            0 <= i <= states@.len(),
            out@.len() == i,
            forall|j: int|
                0 <= j < i ==> #[trigger] out.deep_view()[j] == (ActionStateV {
                    image: spec_rebased_image(
                        states.deep_view()[j].image,
                        images_root@,
                        ctx@,
                    ),
                    ..states.deep_view()[j]
                }),
        decreases states@.len() - i,
    {
        let ghost prev = out.deep_view();
        let mut st = crate::shared::dup_action_state(&states[i]);
        st.image = rebase_image(st.image.as_str(), images_root, ctx);
        out.push(st);
        proof {
            assert(states.deep_view()[i as int] == states@[i as int]@);
            assert forall|j: int| 0 <= j < i + 1 implies #[trigger] out.deep_view()[j]
                == if j < i {
                prev[j]
            } else {
                out.deep_view()[i as int]
            } by {
                assert(out.deep_view()[j] == out@[j]@);
            }
        }
        i = i + 1;
    }
    proof {
        assert(out.deep_view() =~= spec_rebased_states(states.deep_view(), images_root@, ctx@));
    }
    out
}

/// Widen a disk child with its file's device and profile.
pub fn disk_child_to_instance(
    d: &DiskChildInstance,
    device: &str,
    profile: &str,
    images_root: &str,
) -> (r: ChildInstance)
    ensures
        r@ == spec_child_from_disk(d@, device@, profile@, images_root@),
{
    ChildInstance {
        action: dup_action(&d.action),
        context: DiskActionContext {
            controller: d.context.controller,
            position: d.context.position,
            index: d.context.index,
        }.into_action_context(device.to_owned(), profile.to_owned()),
        states: rebase_states(&d.states, images_root, &d.context),
        current_state: d.current_state,
        settings: d.settings.clone(),
    }
}

/// Widen a disk instance, children included, with its file's device and
/// profile.
pub fn disk_to_instance(
    d: &DiskActionInstance,
    device: &str,
    profile: &str,
    images_root: &str,
) -> (r: ActionInstance)
    ensures
        r@ == spec_inst_from_disk(d@, device@, profile@, images_root@),
{
    let children: Option<Vec<ChildInstance>> = match &d.children {
        Some(cs) => {
            let mut out: Vec<ChildInstance> = Vec::new();
            let mut k: usize = 0;
            while k < cs.len()
                invariant
                    0 <= k <= cs@.len(),
                    out@.len() == k,
                    forall|j: int|
                        0 <= j < k ==> out@[j]@ == spec_child_from_disk(
                            cs@[j]@,
                            device@,
                            profile@,
                            images_root@,
                        ),
                decreases cs@.len() - k,
            {
                out.push(disk_child_to_instance(&cs[k], device, profile, images_root));
                k = k + 1;
            }
            Some(out)
        },
        None => None,
    };
    let r = ActionInstance {
        action: dup_action(&d.action),
        context: DiskActionContext {
            controller: d.context.controller,
            position: d.context.position,
            index: d.context.index,
        }.into_action_context(device.to_owned(), profile.to_owned()),
        states: rebase_states(&d.states, images_root, &d.context),
        current_state: d.current_state,
        settings: d.settings.clone(),
        children,
    };
    proof {
        match (&d.children, &r.children) {
            (Some(cs), Some(out)) => {
                assert(out.deep_view() =~= cs.deep_view().map_values(
                    |c: DiskActionInstanceV| spec_child_from_disk(
                        c,
                        device@,
                        profile@,
                        images_root@,
                    ),
                ));
            },
            _ => {},
        }
    }
    r
}

/// Narrow a profile to its disk shape.
pub fn profile_to_disk(p: &Profile) -> (r: DiskProfile)
    ensures
        r@ == spec_profile_to_disk(p@),
{
    let mut keys: Vec<Option<DiskActionInstance>> = Vec::new();
    let mut k: usize = 0;
    while k < p.keys.len()
        invariant
            0 <= k <= p.keys@.len(),
            keys@.len() == k,
            forall|j: int|
                0 <= j < k ==> keys.deep_view()[j] == match p.keys.deep_view()[j] {
                    Some(i) => Some(spec_inst_to_disk(i)),
                    None => None::<DiskActionInstanceV>,
                },
        decreases p.keys@.len() - k,
    {
        let ghost prev = keys.deep_view();
        match &p.keys[k] {
            Some(i) => keys.push(Some(instance_to_disk(i))),
            None => keys.push(None),
        }
        proof {
            assert forall|j: int| 0 <= j < k + 1 implies #[trigger] keys.deep_view()[j]
                == if j < k {
                prev[j]
            } else {
                match p.keys.deep_view()[k as int] {
                    Some(i) => Some(spec_inst_to_disk(i)),
                    None => None::<DiskActionInstanceV>,
                }
            } by {
                assert(keys.deep_view()[j] == keys@[j].deep_view());
            }
        }
        k = k + 1;
    }
    let mut sliders: Vec<Option<DiskActionInstance>> = Vec::new();
    let mut k2: usize = 0;
    while k2 < p.sliders.len()
        invariant
            0 <= k2 <= p.sliders@.len(),
            sliders@.len() == k2,
            forall|j: int|
                0 <= j < k2 ==> sliders.deep_view()[j] == match p.sliders.deep_view()[j] {
                    Some(i) => Some(spec_inst_to_disk(i)),
                    None => None::<DiskActionInstanceV>,
                },
        decreases p.sliders@.len() - k2,
    {
        let ghost prev = sliders.deep_view();
        match &p.sliders[k2] {
            Some(i) => sliders.push(Some(instance_to_disk(i))),
            None => sliders.push(None),
        }
        proof {
            assert forall|j: int| 0 <= j < k2 + 1 implies #[trigger] sliders.deep_view()[j]
                == if j < k2 {
                prev[j]
            } else {
                match p.sliders.deep_view()[k2 as int] {
                    Some(i) => Some(spec_inst_to_disk(i)),
                    None => None::<DiskActionInstanceV>,
                }
            } by {
                assert(sliders.deep_view()[j] == sliders@[j].deep_view());
            }
        }
        k2 = k2 + 1;
    }
    let r = DiskProfile { keys, sliders };
    proof {
        assert(r@.keys =~= spec_profile_to_disk(p@).keys);
        assert(r@.sliders =~= spec_profile_to_disk(p@).sliders);
    }
    r
}

/// Widen a disk profile with the device and profile name its file stands
/// for, rebasing externalized image names below the images root.
pub fn disk_to_profile(d: &DiskProfile, device: &str, id: &str, images_root: &str) -> (r: Profile)
    ensures
        r@ == spec_profile_from_disk(d@, device@, id@, images_root@),
{
    let mut keys: Vec<Option<ActionInstance>> = Vec::new();
    let mut k: usize = 0;
    while k < d.keys.len()
        invariant
            0 <= k <= d.keys@.len(),
            keys@.len() == k,
            forall|j: int|
                0 <= j < k ==> keys.deep_view()[j] == match d.keys.deep_view()[j] {
                    Some(i) => Some(spec_inst_from_disk(i, device@, id@, images_root@)),
                    None => None::<ActionInstanceV>,
                },
        decreases d.keys@.len() - k,
    {
        let ghost prev = keys.deep_view();
        match &d.keys[k] {
            Some(i) => keys.push(Some(disk_to_instance(i, device, id, images_root))),
            None => keys.push(None),
        }
        proof {
            assert forall|j: int| 0 <= j < k + 1 implies #[trigger] keys.deep_view()[j]
                == if j < k {
                prev[j]
            } else {
                match d.keys.deep_view()[k as int] {
                    Some(i) => Some(spec_inst_from_disk(i, device@, id@, images_root@)),
                    None => None::<ActionInstanceV>,
                }
            } by {
                assert(keys.deep_view()[j] == keys@[j].deep_view());
            }
        }
        k = k + 1;
    }
    let mut sliders: Vec<Option<ActionInstance>> = Vec::new();
    let mut k2: usize = 0;
    while k2 < d.sliders.len()
        invariant
            0 <= k2 <= d.sliders@.len(),
            sliders@.len() == k2,
            forall|j: int|
                0 <= j < k2 ==> sliders.deep_view()[j] == match d.sliders.deep_view()[j] {
                    Some(i) => Some(spec_inst_from_disk(i, device@, id@, images_root@)),
                    None => None::<ActionInstanceV>,
                },
        decreases d.sliders@.len() - k2,
    {
        let ghost prev = sliders.deep_view();
        match &d.sliders[k2] {
            Some(i) => sliders.push(Some(disk_to_instance(i, device, id, images_root))),
            None => sliders.push(None),
        }
        proof {
            assert forall|j: int| 0 <= j < k2 + 1 implies #[trigger] sliders.deep_view()[j]
                == if j < k2 {
                prev[j]
            } else {
                match d.sliders.deep_view()[k2 as int] {
                    Some(i) => Some(spec_inst_from_disk(i, device@, id@, images_root@)),
                    None => None::<ActionInstanceV>,
                }
            } by {
                assert(sliders.deep_view()[j] == sliders@[j].deep_view());
            }
        }
        k2 = k2 + 1;
    }
    let r = Profile { id: id.to_owned(), keys, sliders };
    proof {
        assert(r@.keys =~= spec_profile_from_disk(d@, device@, id@, images_root@).keys);
        assert(r@.sliders =~= spec_profile_from_disk(d@, device@, id@, images_root@).sliders);
    }
    r
}

/// Whether none of an instance's images is a bare externalized file name:
/// none starts with a digit. Loading rebases exactly such names, so these
/// are the instances the disk round trip reproduces verbatim.
pub open spec fn placed_images(i: ActionInstanceV) -> bool {
    &&& forall|k: int|
        0 <= k < i.states.len() ==> ((#[trigger] i.states[k]).image.len() == 0 || !is_digit(
            i.states[k].image[0],
        ))
    &&& match i.children {
        Some(cs) => forall|j: int, k: int|
            0 <= j < cs.len() && 0 <= k < (#[trigger] cs[j]).states.len() ==> ((
            #[trigger] cs[j].states[k]).image.len() == 0 || !is_digit(cs[j].states[k].image[0])),
        None => true,
    }
}

/// Rebasing leaves a state list without bare externalized names alone.
proof fn lemma_rebase_noop(
    states: Seq<ActionStateV>,
    images_root: Seq<char>,
    ctx: DiskActionContextV,
)
    requires
        forall|k: int|
            0 <= k < states.len() ==> ((#[trigger] states[k]).image.len() == 0 || !is_digit(
                states[k].image[0],
            )),
    ensures
        spec_rebased_states(states, images_root, ctx) == states,
{
    assert forall|k: int|
        0 <= k < states.len() implies spec_rebased_states(states, images_root, ctx)[k]
        == states[k] by {}
    assert(spec_rebased_states(states, images_root, ctx) =~= states);
}

/// Narrowing a well-formed instance to its disk shape and widening it with
/// the same device and profile gives the instance back, as long as no
/// image is a bare externalized name awaiting rebasing.
pub proof fn lemma_instance_disk_round_trip(
    i: ActionInstanceV,
    slot: crate::shared::ContextV,
    images_root: Seq<char>,
)
    requires
        wf_instance(i, slot),
        placed_images(i),
    ensures
        spec_inst_from_disk(spec_inst_to_disk(i), slot.device, slot.profile, images_root) == i,
{
    let back = spec_inst_from_disk(spec_inst_to_disk(i), slot.device, slot.profile, images_root);
    assert(back.context == i.context);
    lemma_rebase_noop(i.states, images_root, spec_ctx_to_disk(i.context));
    match i.children {
        Some(cs) => {
            let down = cs.map_values(|c: ActionInstanceV| spec_child_to_disk(c));
            let up = down.map_values(
                |c: DiskActionInstanceV| spec_child_from_disk(
                    c,
                    slot.device,
                    slot.profile,
                    images_root,
                ),
            );
            assert forall|j: int| 0 <= j < cs.len() implies up[j] == cs[j] by {
                assert(cs[j].context.device == slot.device);
                assert(cs[j].context.profile == slot.profile);
                assert(cs[j].children is None);
                assert(forall|k: int|
                    0 <= k < cs[j].states.len() ==> ((#[trigger] cs[j].states[k]).image.len() == 0
                        || !is_digit(cs[j].states[k].image[0])));
                lemma_rebase_noop(cs[j].states, images_root, spec_ctx_to_disk(cs[j].context));
            }
            assert(up =~= cs);
        },
        None => {},
    }
}

/// Whether no instance of a profile carries a bare externalized image
/// name; exactly then the disk round trip is verbatim — equivalence up to
/// normalized image paths.
pub open spec fn profile_placed_images(p: ProfileV) -> bool {
    &&& forall|k: int| 0 <= k < p.keys.len() ==> match #[trigger] p.keys[k] {
        Some(i) => placed_images(i),
        None => true,
    }
    &&& forall|k: int| 0 <= k < p.sliders.len() ==> match #[trigger] p.sliders[k] {
        Some(i) => placed_images(i),
        None => true,
    }
}

/// Narrowing a well-formed profile to its disk shape and widening it with
/// its own device and name gives the profile back, image paths already
/// normalized.
pub proof fn lemma_profile_disk_round_trip(p: ProfileV, device: Seq<char>, images_root: Seq<char>)
    requires
        wf_profile(p, device),
        profile_placed_images(p),
    ensures
        spec_profile_from_disk(spec_profile_to_disk(p), device, p.id, images_root) == p,
{
    let back = spec_profile_from_disk(spec_profile_to_disk(p), device, p.id, images_root);
    assert forall|k: int| 0 <= k < p.keys.len() implies back.keys[k] == p.keys[k] by {
        match p.keys[k] {
            Some(i) => {
                lemma_instance_disk_round_trip(
                    i,
                    slot_context(device, p.id, Controller::Keypad, k as u8),
                    images_root,
                );
            },
            None => {},
        }
    }
    assert forall|k: int| 0 <= k < p.sliders.len() implies back.sliders[k] == p.sliders[k] by {
        match p.sliders[k] {
            Some(i) => {
                lemma_instance_disk_round_trip(
                    i,
                    slot_context(device, p.id, Controller::Encoder, k as u8),
                    images_root,
                );
            },
            None => {},
        }
    }
    assert(back.keys =~= p.keys);
    assert(back.sliders =~= p.sliders);
}

/// An instance as the oldest profile files stored it: addressed by a full
/// context, with no child list.
pub struct LegacyInstance {
    pub action: Action,
    pub context: ActionContext,
    pub states: Vec<ActionState>,
    pub current_state: u16,
    pub settings: String,
}

impl View for LegacyInstance {
    type V = ActionInstanceV;

    open spec fn view(&self) -> ActionInstanceV {
        ActionInstanceV {
            action: self.action@,
            context: self.context@,
            states: self.states.deep_view(),
            current_state: self.current_state,
            settings: self.settings@,
            children: None,
        }
    }
}

impl DeepView for LegacyInstance {
    type V = ActionInstanceV;

    open spec fn deep_view(&self) -> ActionInstanceV {
        self.view()
    }
}

/// A profile in the oldest on-disk schema: a stack of instances per slot
/// instead of one optional instance.
pub struct ProfileV1 {
    pub id: String,
    pub keys: Vec<Vec<LegacyInstance>>,
    pub sliders: Vec<Vec<LegacyInstance>>,
}

/// Mathematical image of an oldest-schema profile.
pub ghost struct ProfileV1V {
    pub id: Seq<char>,
    pub keys: Seq<Seq<ActionInstanceV>>,
    pub sliders: Seq<Seq<ActionInstanceV>>,
}

impl View for ProfileV1 {
    type V = ProfileV1V;

    open spec fn view(&self) -> ProfileV1V {
        ProfileV1V {
            id: self.id@,
            keys: self.keys.deep_view(),
            sliders: self.sliders.deep_view(),
        }
    }
}

/// The visual state a migrated container starts with.
pub open spec fn multi_action_state() -> ActionStateV {
    ActionStateV { image: "opendeck/multi-action.png"@, ..default_action_state() }
}

/// The action a stack of instances is migrated into: the built-in
/// multi-action container.
pub open spec fn multi_action_template() -> ActionV {
    ActionV {
        name: "Multi Action"@,
        uuid: "opendeck.multiaction"@,
        plugin: "opendeck"@,
        tooltip: "Execute multiple actions"@,
        icon: "opendeck/multi-action.png"@,
        disable_automatic_states: false,
        visible_in_action_list: true,
        supported_in_multi_actions: false,
        user_title_enabled: true,
        property_inspector: Seq::empty(),
        controllers: seq!["Keypad"@],
        states: seq![multi_action_state()],
    }
}

/// Build the multi-action container action.
pub fn make_multi_action() -> (r: Action)
    ensures
        r@ == multi_action_template(),
{
    let mut state = ActionState::default();
    state.image = "opendeck/multi-action.png".to_owned();
    let mut states: Vec<ActionState> = Vec::new();
    states.push(state);
    let mut controllers: Vec<String> = Vec::new();
    controllers.push("Keypad".to_owned());
    let r = Action {
        name: "Multi Action".to_owned(),
        uuid: "opendeck.multiaction".to_owned(),
        plugin: "opendeck".to_owned(),
        tooltip: "Execute multiple actions".to_owned(),
        icon: "opendeck/multi-action.png".to_owned(),
        disable_automatic_states: false,
        visible_in_action_list: true,
        supported_in_multi_actions: false,
        user_title_enabled: true,
        property_inspector: String::new(),
        controllers,
        states,
    };
    proof {
        assert(r@.controllers =~= multi_action_template().controllers);
        assert(r@.states =~= multi_action_template().states);
    }
    r
}

/// A stacked instance migrated to a container child: its stacking index
/// moves up by one, below the container's own index zero.
pub open spec fn spec_legacy_child_to_disk(c: ActionInstanceV) -> DiskActionInstanceV {
    DiskActionInstanceV {
        action: c.action,
        context: DiskActionContextV {
            controller: c.context.controller,
            position: c.context.position,
            index: (c.context.index + 1) as u16,
        },
        states: c.states,
        current_state: c.current_state,
        settings: c.settings,
        children: None,
    }
}

/// What one key slot of the oldest schema becomes: nothing, the single
/// instance, or a multi-action container holding the whole stack.
pub open spec fn spec_v1_key_slot(slot: Seq<ActionInstanceV>) -> Option<DiskActionInstanceV> {
    if slot.len() == 0 {
        None
    } else if slot.len() == 1 {
        Some(spec_child_to_disk(slot[0]))
    } else {
        Some(
            DiskActionInstanceV {
                action: multi_action_template(),
                context: spec_ctx_to_disk(slot[0].context),
                states: seq![multi_action_state()],
                current_state: 0,
                settings: "{}"@,
                children: Some(slot.map_values(|c: ActionInstanceV| spec_legacy_child_to_disk(c))),
            },
        )
    }
}

/// What one encoder slot of the oldest schema becomes: encoders never held
/// containers, so only the first stacked instance survives.
pub open spec fn spec_v1_slider_slot(slot: Seq<ActionInstanceV>) -> Option<DiskActionInstanceV> {
    if slot.len() == 0 {
        None
    } else {
        Some(spec_child_to_disk(slot[0]))
    }
}

/// What a whole oldest-schema profile becomes on disk.
pub open spec fn spec_v1_to_disk(p: ProfileV1V) -> DiskProfileV {
    DiskProfileV {
        keys: p.keys.map_values(|slot: Seq<ActionInstanceV>| spec_v1_key_slot(slot)),
        sliders: p.sliders.map_values(|slot: Seq<ActionInstanceV>| spec_v1_slider_slot(slot)),
    }
}

/// Narrow a legacy instance to a disk child, moving its index up by one.
fn legacy_child_to_disk(c: &LegacyInstance) -> (r: DiskChildInstance)
    requires
        c.context.index < u16::MAX,
    ensures
        r@ == spec_legacy_child_to_disk(c@),
{
    DiskChildInstance {
        action: dup_action(&c.action),
        context: DiskActionContext {
            controller: c.context.controller,
            position: c.context.position,
            index: c.context.index + 1,
        },
        states: dup_action_states(&c.states),
        current_state: c.current_state,
        settings: c.settings.clone(),
    }
}

/// Narrow a legacy instance to a disk instance, keeping its index.
fn legacy_to_disk(c: &LegacyInstance) -> (r: DiskActionInstance)
    ensures
        r@ == spec_child_to_disk(c@),
{
    DiskActionInstance {
        action: dup_action(&c.action),
        context: DiskActionContext::from_action_context(&c.context),
        states: dup_action_states(&c.states),
        current_state: c.current_state,
        settings: c.settings.clone(),
        children: None,
    }
}

/// Migrate a profile from the oldest on-disk schema: a slot holding a
/// stack of more than one instance becomes a multi-action container whose
/// children are the stack, indices moved up by one.
pub fn migrate_v1_profile(p: &ProfileV1) -> (r: DiskProfile)
    requires
        forall|k: int, j: int|
            0 <= k < p.keys@.len() && 0 <= j < p.keys@[k]@.len()
                ==> (#[trigger] p.keys@[k]@[j]).context.index < u16::MAX,
    ensures
        r@ == spec_v1_to_disk(p@),
{
    let mut keys: Vec<Option<DiskActionInstance>> = Vec::new();
    let mut k: usize = 0;
    while k < p.keys.len()
        invariant
            0 <= k <= p.keys@.len(),
            keys@.len() == k,
            forall|k2: int, j: int|
                0 <= k2 < p.keys@.len() && 0 <= j < p.keys@[k2]@.len()
                    ==> (#[trigger] p.keys@[k2]@[j]).context.index < u16::MAX,
            forall|j: int|
                0 <= j < k ==> #[trigger] keys.deep_view()[j] == spec_v1_key_slot(
                    p.keys.deep_view()[j],
                ),
        decreases p.keys@.len() - k,
    {
        let ghost prev = keys.deep_view();
        let slot = &p.keys[k];
        if slot.len() == 0 {
            keys.push(None);
        } else if slot.len() == 1 {
            proof {
                assert(p.keys.deep_view()[k as int][0] == slot@[0]@);
            }
            keys.push(Some(legacy_to_disk(&slot[0])));
        } else {
            let mut children: Vec<DiskChildInstance> = Vec::new();
            let mut j: usize = 0;
            while j < slot.len()
                invariant
                    0 <= j <= slot@.len(),
                    children@.len() == j,
                    forall|i: int|
                        0 <= i < slot@.len() ==> (#[trigger] slot@[i]).context.index < u16::MAX,
                    forall|i: int|
                        0 <= i < j ==> #[trigger] children.deep_view()[i]
                            == spec_legacy_child_to_disk(slot@[i]@),
                decreases slot@.len() - j,
            {
                proof {
                    assert(slot@[j as int].context.index < u16::MAX);
                }
                let ghost cprev = children.deep_view();
                children.push(legacy_child_to_disk(&slot[j]));
                proof {
                    assert forall|i: int| 0 <= i < j + 1 implies #[trigger] children.deep_view()[i]
                        == if i < j {
                        cprev[i]
                    } else {
                        spec_legacy_child_to_disk(slot@[j as int]@)
                    } by {
                        assert(children.deep_view()[i] == children@[i].deep_view());
                    }
                }
                j = j + 1;
            }
            let container = DiskActionInstance {
                action: make_multi_action(),
                context: DiskActionContext::from_action_context(&slot[0].context),
                states: {
                    let mut st = ActionState::default();
                    st.image = "opendeck/multi-action.png".to_owned();
                    let mut v: Vec<ActionState> = Vec::new();
                    v.push(st);
                    v
                },
                current_state: 0,
                settings: "{}".to_owned(),
                children: Some(children),
            };
            proof {
                assert(container@.states =~= seq![multi_action_state()]);
                assert(container@.children matches Some(cs) && cs =~= p.keys.deep_view()[
                    k as int
                ].map_values(|c: ActionInstanceV| spec_legacy_child_to_disk(c)));
                assert(container@ == spec_v1_key_slot(p.keys.deep_view()[k as int]) -> Some_0);
            }
            keys.push(Some(container));
        }
        proof {
            assert forall|j: int| 0 <= j < k + 1 implies #[trigger] keys.deep_view()[j]
                == if j < k {
                prev[j]
            } else {
                spec_v1_key_slot(p.keys.deep_view()[k as int])
            } by {
                assert(keys.deep_view()[j] == keys@[j].deep_view());
            }
        }
        k = k + 1;
    }
    let mut sliders: Vec<Option<DiskActionInstance>> = Vec::new();
    let mut k2: usize = 0;
    while k2 < p.sliders.len()
        invariant
            0 <= k2 <= p.sliders@.len(),
            sliders@.len() == k2,
            forall|j: int|
                0 <= j < k2 ==> #[trigger] sliders.deep_view()[j] == spec_v1_slider_slot(
                    p.sliders.deep_view()[j],
                ),
        decreases p.sliders@.len() - k2,
    {
        let ghost prev = sliders.deep_view();
        let slot = &p.sliders[k2];
        if slot.len() == 0 {
            sliders.push(None);
        } else {
            proof {
                assert(p.sliders.deep_view()[k2 as int][0] == slot@[0]@);
            }
            sliders.push(Some(legacy_to_disk(&slot[0])));
        }
        proof {
            assert forall|j: int| 0 <= j < k2 + 1 implies #[trigger] sliders.deep_view()[j]
                == if j < k2 {
                prev[j]
            } else {
                spec_v1_slider_slot(p.sliders.deep_view()[k2 as int])
            } by {
                assert(sliders.deep_view()[j] == sliders@[j].deep_view());
            }
        }
        k2 = k2 + 1;
    }
    let r = DiskProfile { keys, sliders };
    proof {
        assert(r@.keys =~= spec_v1_to_disk(p@).keys);
        assert(r@.sliders =~= spec_v1_to_disk(p@).sliders);
    }
    r
}

/// Parsing the string form of a disk address gives the address back.
pub proof fn lemma_disk_context_round_trip(c: DiskActionContextV)
    ensures
        spec_parse_disk_context(spec_format_disk_context(c)) == Some(c),
{
    let t = ctrl_chars(c.controller);
    let a = dec_rep(c.position as nat);
    let b = dec_rep(c.index as nat);
    let f = spec_format_disk_context(c);
    lemma_dec_rep_val(c.position as nat);
    lemma_dec_rep_val(c.index as nat);
    lemma_ctrl_dot_free(c.controller);
    lemma_ctrl_chars_parse(c.controller);
    let i1 = t.len() as int;
    let i2 = i1 + 1 + a.len();
    let n = i2 + 1 + b.len();
    assert(f.len() == n);
    assert forall|j: int| 0 <= j < i1 implies f[j] == t[j] by {}
    assert(f[i1] == '.');
    assert forall|j: int| i1 + 1 <= j < i2 implies f[j] == a[j - (i1 + 1)] by {}
    assert(f[i2] == '.');
    assert forall|j: int| i2 + 1 <= j < n implies f[j] == b[j - (i2 + 1)] by {}
    lemma_spec_find_unique(f, '.', 0, i1);
    assert forall|j: int| i1 + 1 <= j < i2 implies f[j] != '.' by {
        lemma_digit_not_dot(a[j - (i1 + 1)]);
    }
    lemma_spec_find_unique(f, '.', i1 + 1, i2);
    assert forall|j: int| i2 + 1 <= j < n implies f[j] != '.' by {
        lemma_digit_not_dot(b[j - (i2 + 1)]);
    }
    lemma_spec_find_none(f, '.', i2 + 1);
    assert(f.subrange(0, i1) =~= t);
    assert(f.subrange(i1 + 1, i2) =~= a);
    assert(f.subrange(i2 + 1, n) =~= b);
    lemma_parse_dec_rep(c.position as nat);
    lemma_parse_dec_rep(c.index as nat);
}


/// What `base64::engine::general_purpose::STANDARD.decode` yields on a
/// string: the decoded bytes, or nothing when the text is not standard
/// base64.
pub uninterp spec fn b64_of(s: Seq<char>) -> Option<Seq<u8>>;

/// Decode standard base64 text.
///
/// Relies on `base64`'s `Engine::decode` with the standard alphabet: the
/// result depends on the input alone.
#[verifier::external_body]
fn b64_decode(s: &str) -> (r: Option<Vec<u8>>)
    ensures
        match r {
            Some(b) => b64_of(s@) == Some(b@),
            None => b64_of(s@) is None,
        },
{
    match base64::engine::general_purpose::STANDARD.decode(s) {
        Ok(bytes) => Some(bytes),
        Err(_) => None,
    }
}

/// The file extension an inline `data:` image names: the text between the
/// first `/` and the following `,`, cut at any `;` and then at any `+`.
pub open spec fn spec_data_uri_extension(s: Seq<char>) -> Option<Seq<char>> {
    match spec_find(s, '/', 0) {
        None => None,
        Some(i) => match spec_find(s, ',', i + 1) {
            None => None,
            Some(j) => {
                let e0 = s.subrange(i + 1, j);
                let e1 = match spec_find(e0, ';', 0) {
                    Some(k) => e0.take(k),
                    None => e0,
                };
                let e2 = match spec_find(e1, '+', 0) {
                    Some(k) => e1.take(k),
                    None => e1,
                };
                Some(e2)
            },
        },
    }
}

/// The bytes to write for one externalized image.
pub enum ImagePayload {
    /// The base64 payload, decoded.
    Encoded(Vec<u8>),
    /// A textual payload, to be written as its UTF-8 bytes.
    Text(String),
}

/// Decide the externalization of one state image: for an inline `data:`
/// image, the file name it moves to — the state index and the extension
/// the URI names — and the bytes or text to write there; for anything
/// else, or when the base64 payload does not decode, nothing — the image
/// string then stays as it is, as on a failed write.
pub fn externalize_state_image(image: &str, state_index: u16) -> (r: Option<(
    String,
    ImagePayload,
)>)
    ensures
        match r {
            Some(p) => {
                &&& "data:"@.is_prefix_of(image@)
                &&& spec_data_uri_extension(image@) matches Some(ext) && p.0@ == dec_rep(
                    state_index as nat,
                ) + seq!['.'] + ext
                &&& match p.1 {
                    ImagePayload::Encoded(b) => spec_find_sub(image@, ";base64,"@, 0)
                        matches Some(i) && b64_of(image@.skip(i + ";base64,"@.len())) == Some(b@),
                    ImagePayload::Text(t) => spec_find_sub(image@, ";base64,"@, 0) is None && (
                    spec_find(image@, ',', 0) matches Some(j) && t@ == image@.skip(j + 1)),
                }
            },
            None => !"data:"@.is_prefix_of(image@) || spec_data_uri_extension(image@) is None || (
            spec_find_sub(image@, ";base64,"@, 0) matches Some(i) && b64_of(
                image@.skip(i + ";base64,"@.len()),
            ) is None) || spec_find(image@, ',', 0) is None,
        },
{
    if !crate::text::starts_with_str(image, "data:") {
        return None;
    }
    let len = image.unicode_len();
    let slash = match find_char_from(image, '/', 0) {
        Some(i) => i,
        None => {
            return None;
        },
    };
    proof {
        lemma_spec_find(image@, '/', 0);
    }
    let comma = match find_char_from(image, ',', slash + 1) {
        Some(j) => j,
        None => {
            return None;
        },
    };
    proof {
        lemma_spec_find(image@, ',', slash as int + 1);
    }
    let e0 = image.substring_char(slash + 1, comma);
    let e1 = match find_char_from(e0, ';', 0) {
        Some(k) => {
            proof {
                lemma_spec_find(e0@, ';', 0);
            }
            e0.substring_char(0, k)
        },
        None => e0,
    };
    proof {
        assert(e0@.take(e0@.len() as int) =~= e0@);
    }
    let e2 = match find_char_from(e1, '+', 0) {
        Some(k) => {
            proof {
                lemma_spec_find(e1@, '+', 0);
            }
            e1.substring_char(0, k)
        },
        None => e1,
    };
    proof {
        assert(e1@.take(e1@.len() as int) =~= e1@);
    }
    let mut name = fmt_u16(state_index);
    name.append(".");
    name.append(e2);
    proof {
        reveal_strlit(".");
        assert("."@ =~= seq!['.']);
        assert(e0@ =~= image@.subrange(slash as int + 1, comma as int));
        assert(spec_data_uri_extension(image@) == Some(e2@));
        assert(name@ =~= dec_rep(state_index as nat) + seq!['.'] + e2@);
    }
    let marker = ";base64,";
    let mlen = marker.unicode_len();
    match find_sub(image, marker, 0) {
        Some(i) => {
            proof {
                lemma_find_sub_bound(image@, marker@, 0);
            }
            let payload = image.substring_char(i + mlen, len);
            proof {
                assert(payload@ =~= image@.skip(i as int + marker@.len()));
            }
            match b64_decode(payload) {
                Some(bytes) => Some((name, ImagePayload::Encoded(bytes))),
                None => None,
            }
        },
        None => {
            let j = match find_char_from(image, ',', 0) {
                Some(j) => j,
                None => {
                    return None;
                },
            };
            proof {
                lemma_spec_find(image@, ',', 0);
            }
            let text = image.substring_char(j + 1, len).to_owned();
            proof {
                assert(text@ =~= image@.skip(j as int + 1));
            }
            Some((name, ImagePayload::Text(text)))
        },
    }
}

/// A found substring lies whole inside the text.
proof fn lemma_find_sub_bound(s: Seq<char>, m: Seq<char>, from: int)
    requires
        0 <= from <= s.len(),
    ensures
        match spec_find_sub(s, m, from) {
            Some(i) => from <= i && i + m.len() <= s.len(),
            None => true,
        },
    decreases s.len() - from,
{
    if from + m.len() <= s.len() && m.len() != 0 && s.subrange(from, from + m.len() as int) != m {
        lemma_find_sub_bound(s, m, from + 1);
    }
}

/// The legacy plugin identifier, as older profile files wrote it.
pub open spec fn legacy_plugin_id() -> Seq<char> {
    "com.amansprojects.opendeck"@
}

/// A string with the legacy plugin identifier exchanged for the current
/// one, wherever it occurs.
pub open spec fn spec_relabel(s: Seq<char>) -> Seq<char> {
    spec_replace_all(s, legacy_plugin_id(), "opendeck"@)
}

/// Exchange the legacy plugin identifier for the current one.
pub fn relabel_string(s: &str) -> (r: String)
    ensures
        r@ == spec_relabel(s@),
{
    replace_all(s, "com.amansprojects.opendeck", "opendeck")
}

/// A visual state with the legacy identifier exchanged in every text.
pub open spec fn spec_relabel_state(st: ActionStateV) -> ActionStateV {
    ActionStateV {
        image: spec_relabel(st.image),
        name: spec_relabel(st.name),
        text: spec_relabel(st.text),
        colour: spec_relabel(st.colour),
        alignment: spec_relabel(st.alignment),
        family: spec_relabel(st.family),
        style: spec_relabel(st.style),
        size: spec_relabel(st.size),
        ..st
    }
}

/// An action with the legacy identifier exchanged in every text.
pub open spec fn spec_relabel_action(a: ActionV) -> ActionV {
    ActionV {
        name: spec_relabel(a.name),
        uuid: spec_relabel(a.uuid),
        plugin: spec_relabel(a.plugin),
        tooltip: spec_relabel(a.tooltip),
        icon: spec_relabel(a.icon),
        property_inspector: spec_relabel(a.property_inspector),
        controllers: Seq::new(a.controllers.len(), |i: int| spec_relabel(a.controllers[i])),
        states: Seq::new(a.states.len(), |i: int| spec_relabel_state(a.states[i])),
        ..a
    }
}

/// A disk instance with the legacy identifier exchanged in every text,
/// children included.
pub open spec fn spec_relabel_disk_instance(d: DiskActionInstanceV) -> DiskActionInstanceV {
    DiskActionInstanceV {
        action: spec_relabel_action(d.action),
        states: Seq::new(d.states.len(), |i: int| spec_relabel_state(d.states[i])),
        settings: spec_relabel(d.settings),
        children: match d.children {
            Some(cs) => Some(
                Seq::new(
                    cs.len(),
                    |i: int|
                        DiskActionInstanceV {
                            action: spec_relabel_action(cs[i].action),
                            states: Seq::new(
                                cs[i].states.len(),
                                |k: int| spec_relabel_state(cs[i].states[k]),
                            ),
                            settings: spec_relabel(cs[i].settings),
                            ..cs[i]
                        },
                ),
            ),
            None => None,
        },
        ..d
    }
}

/// A disk profile with the legacy identifier exchanged in every text.
pub open spec fn spec_relabel_profile(d: DiskProfileV) -> DiskProfileV {
    DiskProfileV {
        keys: Seq::new(
            d.keys.len(),
            |i: int|
                match d.keys[i] {
                    Some(inst) => Some(spec_relabel_disk_instance(inst)),
                    None => None,
                },
        ),
        sliders: Seq::new(
            d.sliders.len(),
            |i: int|
                match d.sliders[i] {
                    Some(inst) => Some(spec_relabel_disk_instance(inst)),
                    None => None,
                },
        ),
    }
}

/// Relabel one visual state.
fn relabel_state(st: &ActionState) -> (r: ActionState)
    ensures
        r@ == spec_relabel_state(st@),
{
    ActionState {
        image: relabel_string(st.image.as_str()),
        name: relabel_string(st.name.as_str()),
        text: relabel_string(st.text.as_str()),
        show: st.show,
        colour: relabel_string(st.colour.as_str()),
        alignment: relabel_string(st.alignment.as_str()),
        family: relabel_string(st.family.as_str()),
        style: relabel_string(st.style.as_str()),
        size: relabel_string(st.size.as_str()),
        underline: st.underline,
    }
}

/// Relabel a state list.
fn relabel_states(v: &Vec<ActionState>) -> (r: Vec<ActionState>)
    ensures
        r.deep_view() == Seq::new(v.deep_view().len(), |i: int| spec_relabel_state(v.deep_view()[i])),
{
    let mut out: Vec<ActionState> = Vec::new();
    let mut i: usize = 0;
    while i < v.len()
        invariant
            0 <= i <= v@.len(),
            out@.len() == i,
            forall|j: int|
                0 <= j < i ==> #[trigger] out.deep_view()[j] == spec_relabel_state(
                    v.deep_view()[j],
                ),
        decreases v@.len() - i,
    {
        let ghost prev = out.deep_view();
        out.push(relabel_state(&v[i]));
        proof {
            assert(v.deep_view()[i as int] == v@[i as int]@);
            assert forall|j: int| 0 <= j < i + 1 implies #[trigger] out.deep_view()[j]
                == if j < i {
                prev[j]
            } else {
                spec_relabel_state(v.deep_view()[i as int])
            } by {
                assert(out.deep_view()[j] == out@[j]@);
            }
        }
        i = i + 1;
    }
    proof {
        assert(out.deep_view() =~= Seq::new(
            v.deep_view().len(),
            |i: int| spec_relabel_state(v.deep_view()[i]),
        ));
    }
    out
}

/// Relabel an action.
fn relabel_action(a: &Action) -> (r: Action)
    ensures
        r@ == spec_relabel_action(a@),
{
    let mut controllers: Vec<String> = Vec::new();
    let mut i: usize = 0;
    while i < a.controllers.len()
        invariant
            0 <= i <= a.controllers@.len(),
            controllers@.len() == i,
            forall|j: int|
                0 <= j < i ==> #[trigger] controllers.deep_view()[j] == spec_relabel(
                    a.controllers.deep_view()[j],
                ),
        decreases a.controllers@.len() - i,
    {
        let ghost prev = controllers.deep_view();
        controllers.push(relabel_string(a.controllers[i].as_str()));
        proof {
            assert(a.controllers.deep_view()[i as int] == a.controllers@[i as int]@);
            assert forall|j: int|
                0 <= j < i + 1 implies #[trigger] controllers.deep_view()[j] == if j < i {
                prev[j]
            } else {
                spec_relabel(a.controllers.deep_view()[i as int])
            } by {
                assert(controllers.deep_view()[j] == controllers@[j]@);
            }
        }
        i = i + 1;
    }
    let r = Action {
        name: relabel_string(a.name.as_str()),
        uuid: relabel_string(a.uuid.as_str()),
        plugin: relabel_string(a.plugin.as_str()),
        tooltip: relabel_string(a.tooltip.as_str()),
        icon: relabel_string(a.icon.as_str()),
        disable_automatic_states: a.disable_automatic_states,
        visible_in_action_list: a.visible_in_action_list,
        supported_in_multi_actions: a.supported_in_multi_actions,
        user_title_enabled: a.user_title_enabled,
        property_inspector: relabel_string(a.property_inspector.as_str()),
        controllers,
        states: relabel_states(&a.states),
    };
    proof {
        assert(r@.controllers =~= spec_relabel_action(a@).controllers);
        assert(r@.states =~= spec_relabel_action(a@).states);
    }
    r
}

/// Relabel a disk instance, children included.
fn relabel_disk_instance(d: &DiskActionInstance) -> (r: DiskActionInstance)
    ensures
        r@ == spec_relabel_disk_instance(d@),
{
    let children: Option<Vec<DiskChildInstance>> = match &d.children {
        None => None,
        Some(cs) => {
            let mut out: Vec<DiskChildInstance> = Vec::new();
            let mut i: usize = 0;
            while i < cs.len()
                invariant
                    0 <= i <= cs@.len(),
                    out@.len() == i,
                    forall|j: int|
                        0 <= j < i ==> #[trigger] out.deep_view()[j] == (DiskActionInstanceV {
                            action: spec_relabel_action(cs.deep_view()[j].action),
                            states: Seq::new(
                                cs.deep_view()[j].states.len(),
                                |k: int| spec_relabel_state(cs.deep_view()[j].states[k]),
                            ),
                            settings: spec_relabel(cs.deep_view()[j].settings),
                            ..cs.deep_view()[j]
                        }),
                decreases cs@.len() - i,
            {
                let ghost prev = out.deep_view();
                let child = &cs[i];
                let relabelled = DiskChildInstance {
                    action: relabel_action(&child.action),
                    context: DiskActionContext {
                        controller: child.context.controller,
                        position: child.context.position,
                        index: child.context.index,
                    },
                    states: relabel_states(&child.states),
                    current_state: child.current_state,
                    settings: relabel_string(child.settings.as_str()),
                };
                out.push(relabelled);
                proof {
                    assert(cs.deep_view()[i as int] == cs@[i as int]@);
                    assert forall|j: int|
                        0 <= j < i + 1 implies #[trigger] out.deep_view()[j] == if j < i {
                        prev[j]
                    } else {
                        out.deep_view()[i as int]
                    } by {
                        assert(out.deep_view()[j] == out@[j]@);
                    }
                }
                i = i + 1;
            }
            Some(out)
        },
    };
    let r = DiskActionInstance {
        action: relabel_action(&d.action),
        context: DiskActionContext {
            controller: d.context.controller,
            position: d.context.position,
            index: d.context.index,
        },
        states: relabel_states(&d.states),
        current_state: d.current_state,
        settings: relabel_string(d.settings.as_str()),
        children,
    };
    proof {
        match (&d.children, &r.children) {
            (Some(cs), Some(out)) => {
                assert(out.deep_view() =~= spec_relabel_disk_instance(d@).children->Some_0);
            },
            _ => {},
        }
        assert(r@.states =~= spec_relabel_disk_instance(d@).states);
    }
    r
}

/// A disk profile with the legacy plugin identifier exchanged for the
/// current one in every text — the rename every migrated file receives.
pub fn relabel_profile(d: &DiskProfile) -> (r: DiskProfile)
    ensures
        r@ == spec_relabel_profile(d@),
{
    let mut keys: Vec<Option<DiskActionInstance>> = Vec::new();
    let mut k: usize = 0;
    while k < d.keys.len()
        invariant
            0 <= k <= d.keys@.len(),
            keys@.len() == k,
            forall|j: int|
                0 <= j < k ==> #[trigger] keys.deep_view()[j] == match d.keys.deep_view()[j] {
                    Some(i) => Some(spec_relabel_disk_instance(i)),
                    None => None::<DiskActionInstanceV>,
                },
        decreases d.keys@.len() - k,
    {
        let ghost prev = keys.deep_view();
        match &d.keys[k] {
            Some(i) => keys.push(Some(relabel_disk_instance(i))),
            None => keys.push(None),
        }
        proof {
            assert forall|j: int| 0 <= j < k + 1 implies #[trigger] keys.deep_view()[j]
                == if j < k {
                prev[j]
            } else {
                match d.keys.deep_view()[k as int] {
                    Some(i) => Some(spec_relabel_disk_instance(i)),
                    None => None::<DiskActionInstanceV>,
                }
            } by {
                assert(keys.deep_view()[j] == keys@[j].deep_view());
            }
        }
        k = k + 1;
    }
    let mut sliders: Vec<Option<DiskActionInstance>> = Vec::new();
    let mut k2: usize = 0;
    while k2 < d.sliders.len()
        invariant
            0 <= k2 <= d.sliders@.len(),
            sliders@.len() == k2,
            forall|j: int|
                0 <= j < k2 ==> #[trigger] sliders.deep_view()[j] == match d.sliders.deep_view()[j] {
                    Some(i) => Some(spec_relabel_disk_instance(i)),
                    None => None::<DiskActionInstanceV>,
                },
        decreases d.sliders@.len() - k2,
    {
        let ghost prev = sliders.deep_view();
        match &d.sliders[k2] {
            Some(i) => sliders.push(Some(relabel_disk_instance(i))),
            None => sliders.push(None),
        }
        proof {
            assert forall|j: int| 0 <= j < k2 + 1 implies #[trigger] sliders.deep_view()[j]
                == if j < k2 {
                prev[j]
            } else {
                match d.sliders.deep_view()[k2 as int] {
                    Some(i) => Some(spec_relabel_disk_instance(i)),
                    None => None::<DiskActionInstanceV>,
                }
            } by {
                assert(sliders.deep_view()[j] == sliders@[j].deep_view());
            }
        }
        k2 = k2 + 1;
    }
    let r = DiskProfile { keys, sliders };
    proof {
        assert(r@.keys =~= spec_relabel_profile(d@).keys);
        assert(r@.sliders =~= spec_relabel_profile(d@).sliders);
    }
    r
}

} // verus!

