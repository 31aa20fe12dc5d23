//! Creating, removing and updating configured instances in slots.
//!
//! Every mutation is a functional update of the slot it touches, so each
//! operation's contract says exactly what the stores look like afterwards.

use vstd::prelude::*;

use crate::errors::{Error, ErrorKind};
use crate::profiles::{
    ProfileStores, StoresV, child_find, spec_instance_at, spec_set_slot, spec_slot_ctx,
    spec_slot_of,
};
use crate::shared::{
    action_context_eq, dup_action, dup_action_context, dup_action_state, dup_action_states, dup_child_instance,
    dup_child_instances, dup_context, dup_instance, Action, ActionContext, ActionContextV,
    ActionInstance, ActionInstanceV, ActionState, ActionStateV, ActionV, ChildInstance, Context,
    ContextV, Controller, controller_str, ctrl_chars, default_action_state,
};
use crate::text::{str_eq, vec_contains_str};

verus! {

/// The visual state a toggle-action container gains for a new child.
pub open spec fn spec_toggle_state() -> ActionStateV {
    ActionStateV { image: "opendeck/toggle-action.png"@, ..default_action_state() }
}

/// Build the visual state a toggle-action container gains for a new child.
fn make_toggle_state() -> (r: ActionState)
    ensures
        r@ == spec_toggle_state(),
{
    let mut s = ActionState::default();
    s.image = "opendeck/toggle-action.png".to_owned();
    s
}

/// Whether an action id names a container: a multi action or a toggle
/// action.
pub open spec fn spec_is_container_uuid(u: Seq<char>) -> bool {
    u == "opendeck.multiaction"@ || u == "opendeck.toggleaction"@
}

/// The address of an instance at a slot with a stacking index.
pub open spec fn spec_ctx_at(ctx: ContextV, index: u16) -> ActionContextV {
    ActionContextV {
        device: ctx.device,
        profile: ctx.profile,
        controller: ctx.controller,
        position: ctx.position,
        index,
    }
}

/// A fresh child of a container: the action's own states, state zero, and
/// empty settings.
pub open spec fn spec_new_child(a: ActionV, ctx: ContextV, index: u16) -> ActionInstanceV {
    ActionInstanceV {
        action: a,
        context: spec_ctx_at(ctx, index),
        states: a.states,
        current_state: 0,
        settings: "{}"@,
        children: None,
    }
}

/// A fresh instance at an empty slot; containers start with an empty child
/// list.
pub open spec fn spec_new_top(a: ActionV, ctx: ContextV) -> ActionInstanceV {
    ActionInstanceV {
        action: a,
        context: spec_ctx_at(ctx, 0),
        states: a.states,
        current_state: 0,
        settings: "{}"@,
        children: if spec_is_container_uuid(a.uuid) {
            Some(Seq::empty())
        } else {
            None
        },
    }
}

/// What creating an instance does: nothing when the action does not
/// support the slot's controller, when the slot holds a plain instance, or
/// when a container has no room for another index; a fresh instance at an
/// empty slot; a fresh child appended inside a container, a toggle action
/// also gaining a visual state.
pub open spec fn spec_create_instance(s: StoresV, a: ActionV, ctx: ContextV) -> (
    StoresV,
    Option<ActionInstanceV>,
) {
    if !a.controllers.contains(ctrl_chars(ctx.controller)) {
        (s, None)
    } else {
        match spec_slot_of(s, ctx) {
            Some(None) => {
                let inst = spec_new_top(a, ctx);
                (spec_set_slot(s, ctx, Some(inst)), Some(inst))
            },
            Some(Some(parent)) => match parent.children {
                Some(cs) => {
                    let idx: int = if cs.len() == 0 {
                        1
                    } else {
                        cs.last().context.index + 1
                    };
                    if idx > u16::MAX {
                        (s, None)
                    } else {
                        let child = spec_new_child(a, ctx, idx as u16);
                        let states2 = if parent.action.uuid == "opendeck.toggleaction"@
                            && parent.states.len() < cs.len() + 1 {
                            parent.states.push(spec_toggle_state())
                        } else {
                            parent.states
                        };
                        let updated = ActionInstanceV {
                            states: states2,
                            children: Some(cs.push(child)),
                            ..parent
                        };
                        (spec_set_slot(s, ctx, Some(updated)), Some(child))
                    }
                },
                None => (s, None),
            },
            None => (s, None),
        }
    }
}

/// Create an instance of an action at a slot: into the empty slot itself,
/// or as a new child when the slot holds a container.
pub fn create_instance(stores: &mut ProfileStores, action: &Action, context: &Context) -> (r:
    Result<Option<ActionInstance>, Error>)
    ensures
        final(stores)@ == spec_create_instance(old(stores)@, action@, context@).0,
        match r {
            Ok(Some(i)) => spec_create_instance(old(stores)@, action@, context@).1 == Some(i@),
            Ok(None) => spec_create_instance(old(stores)@, action@, context@).1 is None,
            Err(e) => action@.controllers.contains(ctrl_chars(context@.controller))
                && spec_slot_of(old(stores)@, context@) is None && e.kind == ErrorKind::NotFound,
        },
{
    if !vec_contains_str(&action.controllers, controller_str(context.controller)) {
        return Ok(None);
    }
    let slot = match stores.get_slot(context) {
        Ok(s) => s,
        Err(e) => {
            return Err(e);
        },
    };
    match slot {
        None => {
            let instance = ActionInstance {
                action: dup_action(action),
                context: ActionContext::from_context(dup_context(context), 0),
                states: dup_action_states(&action.states),
                current_state: 0,
                settings: "{}".to_owned(),
                children: if str_eq(action.uuid.as_str(), "opendeck.multiaction") || str_eq(
                    action.uuid.as_str(),
                    "opendeck.toggleaction",
                ) {
                    Some(Vec::new())
                } else {
                    None
                },
            };
            let copy = dup_instance(&instance);
            proof {
                match &instance.children {
                    Some(v) => {
                        assert(v.deep_view() =~= Seq::<ActionInstanceV>::empty());
                    },
                    None => {},
                }
                assert(instance@ == spec_new_top(action@, context@));
            }
            stores.set_slot(context, Some(instance));
            Ok(Some(copy))
        },
        Some(parent) => {
            match &parent.children {
                None => Ok(None),
                Some(cs) => {
                    let index: u16 = if cs.len() == 0 {
                        1
                    } else {
                        let last = &cs[cs.len() - 1];
                        proof {
                            assert(cs.deep_view()[cs@.len() - 1] == cs@[cs@.len() - 1]@);
                        }
                        if last.context.index == u16::MAX {
                            return Ok(None);
                        }
                        last.context.index + 1
                    };
                    let child = ChildInstance {
                        action: dup_action(action),
                        context: ActionContext::from_context(dup_context(context), index),
                        states: dup_action_states(&action.states),
                        current_state: 0,
                        settings: "{}".to_owned(),
                    };
                    proof {
                        assert(child@ == spec_new_child(action@, context@, index));
                    }
                    let result = ChildInstance {
                        action: dup_action(&child.action),
                        context: dup_action_context(&child.context),
                        states: dup_action_states(&child.states),
                        current_state: 0,
                        settings: child.settings.clone(),
                    };
                    let mut children = dup_child_instances(cs);
                    children.push(child);
                    proof {
                        assert(children.deep_view() =~= cs.deep_view().push(
                            spec_new_child(action@, context@, index),
                        ));
                    }
                    let grow = str_eq(parent.action.uuid.as_str(), "opendeck.toggleaction")
                        && parent.states.len() < children.len();
                    let mut states = dup_action_states(&parent.states);
                    if grow {
                        states.push(make_toggle_state());
                        proof {
                            assert(states.deep_view() =~= parent.states.deep_view().push(
                                spec_toggle_state(),
                            ));
                        }
                    }
                    let updated = ActionInstance {
                        action: dup_action(&parent.action),
                        context: dup_action_context(&parent.context),
                        states,
                        current_state: parent.current_state,
                        settings: parent.settings.clone(),
                        children: Some(children),
                    };
                    stores.set_slot(context, Some(updated));
                    Ok(
                        Some(
                            ActionInstance {
                                action: result.action,
                                context: result.context,
                                states: result.states,
                                current_state: result.current_state,
                                settings: result.settings,
                                children: None,
                            },
                        ),
                    )
                },
            }
        },
    }
}

/// What removing the instance at an address does: a top-level instance
/// leaves its slot empty, children included; a child leaves its container,
/// a toggle action also dropping a visual state and clamping its current
/// state; an address that resolves to nothing changes nothing.
pub open spec fn spec_remove_instance(s: StoresV, ctx: ActionContextV) -> StoresV {
    match spec_slot_of(s, spec_slot_ctx(ctx)) {
        Some(Some(i)) => {
            if i.context == ctx {
                spec_set_slot(s, spec_slot_ctx(ctx), None)
            } else {
                match i.children {
                    Some(cs) => match child_find(cs, ctx, 0) {
                        Some(j) => {
                            let cs2 = cs.remove(j);
                            let updated = if i.action.uuid == "opendeck.toggleaction"@ {
                                let cur: u16 = if i.current_state >= cs2.len() {
                                    if cs2.len() == 0 {
                                        0
                                    } else {
                                        (cs2.len() - 1) as u16
                                    }
                                } else {
                                    i.current_state
                                };
                                let sts = if cs2.len() > 0 && i.states.len() > 0 {
                                    i.states.drop_last()
                                } else {
                                    i.states
                                };
                                ActionInstanceV {
                                    current_state: cur,
                                    states: sts,
                                    children: Some(cs2),
                                    ..i
                                }
                            } else {
                                ActionInstanceV { children: Some(cs2), ..i }
                            };
                            spec_set_slot(s, spec_slot_ctx(ctx), Some(updated))
                        },
                        None => s,
                    },
                    None => s,
                }
            }
        },
        _ => s,
    }
}

/// Remove the instance at an address.
pub fn remove_instance(stores: &mut ProfileStores, context: &ActionContext) -> (r: Result<
    (),
    Error,
>)
    ensures
        final(stores)@ == spec_remove_instance(old(stores)@, context@),
        match r {
            Ok(_) => spec_slot_of(old(stores)@, spec_slot_ctx(context@)) is Some,
            Err(e) => spec_slot_of(old(stores)@, spec_slot_ctx(context@)) is None && e.kind
                == ErrorKind::NotFound,
        },
{
    let slot_ctx = context.to_slot_context();
    proof {
        assert(slot_ctx@ == spec_slot_ctx(context@));
    }
    let slot = match stores.get_slot(&slot_ctx) {
        Ok(s) => s,
        Err(e) => {
            return Err(e);
        },
    };
    match slot {
        None => Ok(()),
        Some(instance) => {
            if action_context_eq(&instance.context, context) {
                stores.set_slot(&slot_ctx, None);
                Ok(())
            } else {
                match &instance.children {
                    None => Ok(()),
                    Some(cs) => {
                        let found = find_child_index(cs, context);
                        match found {
                            None => Ok(()),
                            Some(j) => {
                                proof {
                                    crate::profiles::lemma_child_find(cs.deep_view(), context@, 0);
                                }
                                let mut children = dup_child_instances(cs);
                                children.remove(j);
                                proof {
                                    assert(children.deep_view() =~= cs.deep_view().remove(
                                        j as int,
                                    ));
                                }
                                let toggle = str_eq(
                                    instance.action.uuid.as_str(),
                                    "opendeck.toggleaction",
                                );
                                let mut current_state = instance.current_state;
                                let mut states = dup_action_states(&instance.states);
                                if toggle {
                                    if current_state as usize >= children.len() {
                                        current_state = if children.len() == 0 {
                                            0
                                        } else {
                                            (children.len() - 1) as u16
                                        };
                                    }
                                    if children.len() > 0 && states.len() > 0 {
                                        states.pop();
                                        proof {
                                            assert(states.deep_view()
                                                =~= instance.states.deep_view().drop_last());
                                        }
                                    }
                                }
                                let updated = ActionInstance {
                                    action: dup_action(&instance.action),
                                    context: dup_action_context(&instance.context),
                                    states,
                                    current_state,
                                    settings: instance.settings.clone(),
                                    children: Some(children),
                                };
                                stores.set_slot(&slot_ctx, Some(updated));
                                Ok(())
                            },
                        }
                    },
                }
            }
        },
    }
}

/// Find the position of the child carrying an address.
pub fn find_child_index(cs: &Vec<ChildInstance>, context: &ActionContext) -> (r: Option<usize>)
    ensures
        match r {
            Some(j) => Some(j as int) == child_find(cs.deep_view(), context@, 0),
            None => child_find(cs.deep_view(), context@, 0) is None,
        },
{
    let mut j: usize = 0;
    while j < cs.len()
        invariant
            0 <= j <= cs@.len(),
            child_find(cs.deep_view(), context@, 0) == child_find(
                cs.deep_view(),
                context@,
                j as int,
            ),
        decreases cs@.len() - j,
    {
        proof {
            assert(cs.deep_view()[j as int] == cs@[j as int]@);
        }
        if action_context_eq(&cs[j].context, context) {
            return Some(j);
        }
        j = j + 1;
    }
    None
}


/// An instance taken as a child: whatever it nests is dropped.
pub open spec fn spec_leaf(v: ActionInstanceV) -> ActionInstanceV {
    ActionInstanceV { children: None, ..v }
}

/// The stores with the instance at an address replaced by a new value: the
/// slot's own instance when the address matches it, else the child
/// carrying the address; an address that resolves to nothing changes
/// nothing.
pub open spec fn spec_replace_instance_at(
    s: StoresV,
    ctx: ActionContextV,
    v: ActionInstanceV,
) -> StoresV {
    match spec_slot_of(s, spec_slot_ctx(ctx)) {
        Some(Some(i)) => if i.context == ctx {
            spec_set_slot(s, spec_slot_ctx(ctx), Some(v))
        } else {
            match i.children {
                Some(cs) => match child_find(cs, ctx, 0) {
                    Some(j) => spec_set_slot(
                        s,
                        spec_slot_ctx(ctx),
                        Some(ActionInstanceV { children: Some(cs.update(j, spec_leaf(v))), ..i }),
                    ),
                    None => s,
                },
                None => s,
            }
        },
        _ => s,
    }
}

/// Replace the instance at an address; reports whether the address
/// resolved to an instance.
pub fn replace_instance_at(
    stores: &mut ProfileStores,
    context: &ActionContext,
    value: ActionInstance,
) -> (r: bool)
    ensures
        final(stores)@ == spec_replace_instance_at(old(stores)@, context@, value@),
        r == (spec_instance_at(old(stores)@, context@) is Some),
{
    let ghost vv = value@;
    let slot_ctx = context.to_slot_context();
    proof {
        assert(slot_ctx@ == spec_slot_ctx(context@));
    }
    let slot = match stores.get_slot(&slot_ctx) {
        Ok(s) => s,
        Err(_) => {
            return false;
        },
    };
    match slot {
        None => false,
        Some(instance) => {
            if action_context_eq(&instance.context, context) {
                stores.set_slot(&slot_ctx, Some(value));
                true
            } else {
                match &instance.children {
                    None => false,
                    Some(cs) => {
                        match find_child_index(cs, context) {
                            None => false,
                            Some(j) => {
                                proof {
                                    crate::profiles::lemma_child_find(
                                        cs.deep_view(),
                                        context@,
                                        0,
                                    );
                                }
                                let mut children = dup_child_instances(cs);
                                let leaf = ChildInstance {
                                    action: value.action,
                                    context: value.context,
                                    states: value.states,
                                    current_state: value.current_state,
                                    settings: value.settings,
                                };
                                children[j] = leaf;
                                proof {
                                    assert(children.deep_view() =~= cs.deep_view().update(
                                        j as int,
                                        spec_leaf(vv),
                                    ));
                                }
                                let updated = ActionInstance {
                                    action: dup_action(&instance.action),
                                    context: dup_action_context(&instance.context),
                                    states: dup_action_states(&instance.states),
                                    current_state: instance.current_state,
                                    settings: instance.settings.clone(),
                                    children: Some(children),
                                };
                                stores.set_slot(&slot_ctx, Some(updated));
                                true
                            },
                        }
                    },
                }
            }
        },
    }
}

/// An instance with its settings blob replaced.
pub open spec fn spec_with_settings(i: ActionInstanceV, payload: Seq<char>) -> ActionInstanceV {
    ActionInstanceV { settings: payload, ..i }
}

/// What a settings update does to the stores.
pub open spec fn spec_update_settings(s: StoresV, ctx: ActionContextV, payload: Seq<char>) -> StoresV {
    match spec_instance_at(s, ctx) {
        Some(i) => spec_replace_instance_at(s, ctx, spec_with_settings(i, payload)),
        None => s,
    }
}

/// Overwrite the settings blob of the instance at an address; the updated
/// instance comes back for notifications.
pub fn update_instance_settings(
    stores: &mut ProfileStores,
    context: &ActionContext,
    payload: String,
) -> (r: Result<Option<ActionInstance>, Error>)
    ensures
        final(stores)@ == spec_update_settings(old(stores)@, context@, payload@),
        match r {
            Ok(Some(u)) => match spec_instance_at(old(stores)@, context@) {
                Some(i) => u@ == spec_with_settings(i, payload@),
                None => false,
            },
            Ok(None) => spec_instance_at(old(stores)@, context@) is None,
            Err(e) => spec_slot_of(old(stores)@, spec_slot_ctx(context@)) is None && e.kind
                == ErrorKind::NotFound,
        },
{
    let found = match stores.get_instance(context) {
        Ok(f) => f,
        Err(e) => {
            return Err(e);
        },
    };
    match found {
        None => Ok(None),
        Some(mut instance) => {
            instance.settings = payload;
            let copy = dup_instance(&instance);
            replace_instance_at(stores, context, instance);
            Ok(Some(copy))
        },
    }
}

/// An instance moved to a state.
pub open spec fn spec_with_current_state(i: ActionInstanceV, state: u16) -> ActionInstanceV {
    ActionInstanceV { current_state: state, ..i }
}

/// What a state change does to the stores.
pub open spec fn spec_update_current_state(s: StoresV, ctx: ActionContextV, state: u16) -> StoresV {
    match spec_instance_at(s, ctx) {
        Some(i) => spec_replace_instance_at(s, ctx, spec_with_current_state(i, state)),
        None => s,
    }
}

/// Move the instance at an address to a state.
pub fn update_instance_state(
    stores: &mut ProfileStores,
    context: &ActionContext,
    state: u16,
) -> (r: Result<Option<ActionInstance>, Error>)
    ensures
        final(stores)@ == spec_update_current_state(old(stores)@, context@, state),
        match r {
            Ok(Some(u)) => match spec_instance_at(old(stores)@, context@) {
                Some(i) => u@ == spec_with_current_state(i, state),
                None => false,
            },
            Ok(None) => spec_instance_at(old(stores)@, context@) is None,
            Err(e) => spec_slot_of(old(stores)@, spec_slot_ctx(context@)) is None && e.kind
                == ErrorKind::NotFound,
        },
{
    let found = match stores.get_instance(context) {
        Ok(f) => f,
        Err(e) => {
            return Err(e);
        },
    };
    match found {
        None => Ok(None),
        Some(mut instance) => {
            instance.current_state = state;
            let copy = dup_instance(&instance);
            replace_instance_at(stores, context, instance);
            Ok(Some(copy))
        },
    }
}

/// How automatic state advance moves an instance: an instance with exactly
/// two states and automatic advance enabled flips to the other state;
/// every other instance stays put.
pub open spec fn spec_advance(i: ActionInstanceV) -> ActionInstanceV {
    if i.states.len() == 2 && !i.action.disable_automatic_states {
        ActionInstanceV { current_state: ((i.current_state + 1) % 2) as u16, ..i }
    } else {
        i
    }
}

/// Automatic state advance flips a two-state instance from state zero to
/// one and back on the next press, and never moves an instance with any
/// other number of states or with automatic advance disabled.
pub proof fn lemma_advance_flips(i: ActionInstanceV)
    ensures
        i.states.len() == 2 && !i.action.disable_automatic_states ==> spec_advance(i).current_state
            == ((i.current_state + 1) % 2) as u16 && spec_advance(
            spec_advance(i),
        ).current_state == (if i.current_state < 2 {
            i.current_state as int
        } else {
            (i.current_state % 2) as int
        }),
        i.states.len() != 2 || i.action.disable_automatic_states ==> spec_advance(i) == i,
{
}

/// Advance the instance at an address by the automatic state rule; the
/// advanced instance comes back for the event payload.
pub fn advance_instance(stores: &mut ProfileStores, context: &ActionContext) -> (r: Result<
    Option<ActionInstance>,
    Error,
>)
    ensures
        final(stores)@ == match spec_instance_at(old(stores)@, context@) {
            Some(i) => spec_replace_instance_at(old(stores)@, context@, spec_advance(i)),
            None => old(stores)@,
        },
        match r {
            Ok(Some(u)) => match spec_instance_at(old(stores)@, context@) {
                Some(i) => u@ == spec_advance(i),
                None => false,
            },
            Ok(None) => spec_instance_at(old(stores)@, context@) is None,
            Err(e) => spec_slot_of(old(stores)@, spec_slot_ctx(context@)) is None && e.kind
                == ErrorKind::NotFound,
        },
{
    let found = match stores.get_instance(context) {
        Ok(f) => f,
        Err(e) => {
            return Err(e);
        },
    };
    match found {
        None => Ok(None),
        Some(mut instance) => {
            if instance.states.len() == 2 && !instance.action.disable_automatic_states {
                instance.current_state = ((instance.current_state as u32 + 1) % 2) as u16;
            }
            let copy = dup_instance(&instance);
            replace_instance_at(stores, context, instance);
            Ok(Some(copy))
        },
    }
}


/// One visual state with its title text replaced.
pub open spec fn spec_state_with_text(st: ActionStateV, t: Seq<char>) -> ActionStateV {
    ActionStateV { text: t, ..st }
}

/// One visual state with its image replaced.
pub open spec fn spec_state_with_image(st: ActionStateV, im: Seq<char>) -> ActionStateV {
    ActionStateV { image: im, ..st }
}

/// The title text one state falls back to: the given title, or the
/// action's own text for that state, or the state's current text when the
/// action has no state at that index.
pub open spec fn spec_title_for(
    states: Seq<ActionStateV>,
    astates: Seq<ActionStateV>,
    title: Option<Seq<char>>,
    j: int,
) -> Seq<char> {
    match title {
        Some(t) => t,
        None => if 0 <= j < astates.len() {
            astates[j].text
        } else {
            states[j].text
        },
    }
}

/// The states of an instance after a `setTitle`: one indexed state, or all
/// of them.
pub open spec fn spec_set_title_states(
    states: Seq<ActionStateV>,
    astates: Seq<ActionStateV>,
    title: Option<Seq<char>>,
    which: Option<u16>,
) -> Seq<ActionStateV> {
    match which {
        Some(k) => if (k as int) < states.len() {
            states.update(
                k as int,
                spec_state_with_text(
                    states[k as int],
                    spec_title_for(states, astates, title, k as int),
                ),
            )
        } else {
            states
        },
        None => Seq::new(
            states.len(),
            |j: int| spec_state_with_text(states[j], spec_title_for(states, astates, title, j)),
        ),
    }
}

/// The image one state falls back to.
pub open spec fn spec_image_for(
    states: Seq<ActionStateV>,
    astates: Seq<ActionStateV>,
    image: Option<Seq<char>>,
    j: int,
) -> Seq<char> {
    match image {
        Some(t) => t,
        None => if 0 <= j < astates.len() {
            astates[j].image
        } else {
            states[j].image
        },
    }
}

/// The states of an instance after a `setImage`: one indexed state, or all
/// of them.
pub open spec fn spec_set_image_states(
    states: Seq<ActionStateV>,
    astates: Seq<ActionStateV>,
    image: Option<Seq<char>>,
    which: Option<u16>,
) -> Seq<ActionStateV> {
    match which {
        Some(k) => if (k as int) < states.len() {
            states.update(
                k as int,
                spec_state_with_image(
                    states[k as int],
                    spec_image_for(states, astates, image, k as int),
                ),
            )
        } else {
            states
        },
        None => Seq::new(
            states.len(),
            |j: int| spec_state_with_image(states[j], spec_image_for(states, astates, image, j)),
        ),
    }
}

/// An instance with its states replaced.
pub open spec fn spec_with_states(i: ActionInstanceV, states: Seq<ActionStateV>) -> ActionInstanceV {
    ActionInstanceV { states, ..i }
}

/// Pick the title for one state, as an owned string.
fn title_for(
    states: &Vec<ActionState>,
    astates: &Vec<ActionState>,
    title: &Option<String>,
    j: usize,
) -> (r: String)
    requires
        j < states@.len(),
    ensures
        r@ == spec_title_for(states.deep_view(), astates.deep_view(), match title {
            Some(t) => Some(t@),
            None => None,
        }, j as int),
{
    match title {
        Some(t) => t.clone(),
        None => {
            if j < astates.len() {
                astates[j].text.clone()
            } else {
                states[j].text.clone()
            }
        },
    }
}

/// Pick the image for one state, as an owned string.
fn image_for(
    states: &Vec<ActionState>,
    astates: &Vec<ActionState>,
    image: &Option<String>,
    j: usize,
) -> (r: String)
    requires
        j < states@.len(),
    ensures
        r@ == spec_image_for(states.deep_view(), astates.deep_view(), match image {
            Some(t) => Some(t@),
            None => None,
        }, j as int),
{
    match image {
        Some(t) => t.clone(),
        None => {
            if j < astates.len() {
                astates[j].image.clone()
            } else {
                states[j].image.clone()
            }
        },
    }
}

/// What a `setTitle` does to the stores.
pub open spec fn spec_update_title(
    s: StoresV,
    ctx: ActionContextV,
    title: Option<Seq<char>>,
    which: Option<u16>,
) -> StoresV {
    match spec_instance_at(s, ctx) {
        Some(i) => spec_replace_instance_at(
            s,
            ctx,
            spec_with_states(i, spec_set_title_states(i.states, i.action.states, title, which)),
        ),
        None => s,
    }
}

/// Overwrite title text on the instance at an address: on one indexed
/// state, or on every state; an absent title falls back to the action's
/// own text.
pub fn update_instance_title(
    stores: &mut ProfileStores,
    context: &ActionContext,
    title: Option<String>,
    which: Option<u16>,
) -> (r: Result<Option<ActionInstance>, Error>)
    ensures
        final(stores)@ == spec_update_title(old(stores)@, context@, match title {
            Some(t) => Some(t@),
            None => None,
        }, which),
        match r {
            Ok(Some(u)) => match spec_instance_at(old(stores)@, context@) {
                Some(i) => u@ == spec_with_states(
                    i,
                    spec_set_title_states(i.states, i.action.states, match title {
                        Some(t) => Some(t@),
                        None => None,
                    }, which),
                ),
                None => false,
            },
            Ok(None) => spec_instance_at(old(stores)@, context@) is None,
            Err(e) => spec_slot_of(old(stores)@, spec_slot_ctx(context@)) is None && e.kind
                == ErrorKind::NotFound,
        },
{
    let ghost tv = match title {
        Some(ref t) => Some(t@),
        None => None::<Seq<char>>,
    };
    let found = match stores.get_instance(context) {
        Ok(f) => f,
        Err(e) => {
            return Err(e);
        },
    };
    match found {
        None => Ok(None),
        Some(mut instance) => {
            let ghost st0 = instance.states.deep_view();
            let ghost av = instance.action.states.deep_view();
            match which {
                Some(k) => {
                    if (k as usize) < instance.states.len() {
                        let t = title_for(&instance.states, &instance.action.states, &title, k as usize);
                        let entry = &mut instance.states[k as usize];
                        entry.text = t;
                        proof {
                            assert(instance.states.deep_view() =~= spec_set_title_states(
                                st0,
                                av,
                                tv,
                                which,
                            ));
                        }
                    }
                },
                None => {
                    let mut out: Vec<ActionState> = Vec::new();
                    let mut j: usize = 0;
                    while j < instance.states.len()
                        invariant
                            0 <= j <= instance.states@.len(),
                            st0 == instance.states.deep_view(),
                            av == instance.action.states.deep_view(),
                            tv == match title {
                                Some(ref t) => Some(t@),
                                None => None::<Seq<char>>,
                            },
                            out@.len() == j,
                            forall|m: int|
                                0 <= m < j ==> #[trigger] out.deep_view()[m]
                                    == spec_state_with_text(
                                    st0[m],
                                    spec_title_for(st0, av, tv, m),
                                ),
                        decreases instance.states@.len() - j,
                    {
                        let ghost prev = out.deep_view();
                        let t = title_for(&instance.states, &instance.action.states, &title, j);
                        let mut st = dup_action_state(&instance.states[j]);
                        st.text = t;
                        out.push(st);
                        proof {
                            assert forall|m: int| 0 <= m < j + 1 implies #[trigger] out.deep_view()[m]
                                == if m < j {
                                prev[m]
                            } else {
                                spec_state_with_text(st0[j as int], spec_title_for(st0, av, tv, j as int))
                            } by {
                                assert(out.deep_view()[m] == out@[m]@);
                            }
                        }
                        j = j + 1;
                    }
                    instance.states = out;
                    proof {
                        assert(instance.states.deep_view() =~= spec_set_title_states(
                            st0,
                            av,
                            tv,
                            which,
                        ));
                    }
                },
            }
            let copy = dup_instance(&instance);
            replace_instance_at(stores, context, instance);
            Ok(Some(copy))
        },
    }
}

/// What a `setImage` does to the stores.
pub open spec fn spec_update_image(
    s: StoresV,
    ctx: ActionContextV,
    image: Option<Seq<char>>,
    which: Option<u16>,
) -> StoresV {
    match spec_instance_at(s, ctx) {
        Some(i) => spec_replace_instance_at(
            s,
            ctx,
            spec_with_states(i, spec_set_image_states(i.states, i.action.states, image, which)),
        ),
        None => s,
    }
}

/// Overwrite the image on the instance at an address: on one indexed
/// state, or on every state; an absent image falls back to the action's
/// own.
pub fn update_instance_image(
    stores: &mut ProfileStores,
    context: &ActionContext,
    image: Option<String>,
    which: Option<u16>,
) -> (r: Result<Option<ActionInstance>, Error>)
    ensures
        final(stores)@ == spec_update_image(old(stores)@, context@, match image {
            Some(t) => Some(t@),
            None => None,
        }, which),
        match r {
            Ok(Some(u)) => match spec_instance_at(old(stores)@, context@) {
                Some(i) => u@ == spec_with_states(
                    i,
                    spec_set_image_states(i.states, i.action.states, match image {
                        Some(t) => Some(t@),
                        None => None,
                    }, which),
                ),
                None => false,
            },
            Ok(None) => spec_instance_at(old(stores)@, context@) is None,
            Err(e) => spec_slot_of(old(stores)@, spec_slot_ctx(context@)) is None && e.kind
                == ErrorKind::NotFound,
        },
{
    let ghost tv = match image {
        Some(ref t) => Some(t@),
        None => None::<Seq<char>>,
    };
    let found = match stores.get_instance(context) {
        Ok(f) => f,
        Err(e) => {
            return Err(e);
        },
    };
    match found {
        None => Ok(None),
        Some(mut instance) => {
            let ghost st0 = instance.states.deep_view();
            let ghost av = instance.action.states.deep_view();
            match which {
                Some(k) => {
                    if (k as usize) < instance.states.len() {
                        let t = image_for(&instance.states, &instance.action.states, &image, k as usize);
                        let entry = &mut instance.states[k as usize];
                        entry.image = t;
                        proof {
                            assert(instance.states.deep_view() =~= spec_set_image_states(
                                st0,
                                av,
                                tv,
                                which,
                            ));
                        }
                    }
                },
                None => {
                    let mut out: Vec<ActionState> = Vec::new();
                    let mut j: usize = 0;
                    while j < instance.states.len()
                        invariant
                            0 <= j <= instance.states@.len(),
                            st0 == instance.states.deep_view(),
                            av == instance.action.states.deep_view(),
                            tv == match image {
                                Some(ref t) => Some(t@),
                                None => None::<Seq<char>>,
                            },
                            out@.len() == j,
                            forall|m: int|
                                0 <= m < j ==> #[trigger] out.deep_view()[m]
                                    == spec_state_with_image(
                                    st0[m],
                                    spec_image_for(st0, av, tv, m),
                                ),
                        decreases instance.states@.len() - j,
                    {
                        let ghost prev = out.deep_view();
                        let t = image_for(&instance.states, &instance.action.states, &image, j);
                        let mut st = dup_action_state(&instance.states[j]);
                        st.image = t;
                        out.push(st);
                        proof {
                            assert forall|m: int| 0 <= m < j + 1 implies #[trigger] out.deep_view()[m]
                                == if m < j {
                                prev[m]
                            } else {
                                spec_state_with_image(st0[j as int], spec_image_for(st0, av, tv, j as int))
                            } by {
                                assert(out.deep_view()[m] == out@[m]@);
                            }
                        }
                        j = j + 1;
                    }
                    instance.states = out;
                    proof {
                        assert(instance.states.deep_view() =~= spec_set_image_states(
                            st0,
                            av,
                            tv,
                            which,
                        ));
                    }
                },
            }
            let copy = dup_instance(&instance);
            replace_instance_at(stores, context, instance);
            Ok(Some(copy))
        },
    }
}


/// A string with one prefix exchanged for another; a string without the
/// prefix stays as it is.
pub open spec fn spec_swap_prefix(s: Seq<char>, from: Seq<char>, to: Seq<char>) -> Seq<char> {
    if from.is_prefix_of(s) {
        to + s.skip(from.len() as int)
    } else {
        s
    }
}

/// Exchange one path prefix for another.
pub fn swap_prefix(s: &str, from: &str, to: &str) -> (r: String)
    ensures
        r@ == spec_swap_prefix(s@, from@, to@),
{
    if crate::text::starts_with_str(s, from) {
        let n = s.unicode_len();
        let fl = from.unicode_len();
        let rest = s.substring_char(fl, n);
        let mut out = to.to_owned();
        out.append(rest);
        proof {
            assert(out@ =~= to@ + s@.skip(from@.len() as int));
        }
        out
    } else {
        s.to_owned()
    }
}

/// A moved child's visual states: each state's image falls back to the
/// action's own state image when the action has one, else to its icon.
pub open spec fn spec_reset_child_states(
    states: Seq<ActionStateV>,
    astates: Seq<ActionStateV>,
    icon: Seq<char>,
) -> Seq<ActionStateV> {
    Seq::new(
        states.len(),
        |i: int|
            ActionStateV {
                image: if i < astates.len() && astates[i].image.len() > 0 {
                    astates[i].image
                } else {
                    icon
                },
                ..states[i]
            },
    )
}

/// A child as it lands after a move: re-addressed below the destination
/// with its order kept, its images reset to the action's own.
pub open spec fn spec_move_child(c: ActionInstanceV, dst: ContextV, index: u16) -> ActionInstanceV {
    ActionInstanceV {
        context: spec_ctx_at(dst, index),
        states: spec_reset_child_states(c.states, c.action.states, c.action.icon),
        ..c
    }
}

/// An instance as it lands after a move: re-addressed at the destination,
/// children re-indexed from one in their old order, and top-level state
/// images under the old image directory following to the new one.
pub open spec fn spec_moved_instance(
    i: ActionInstanceV,
    dst: ContextV,
    old_dir: Seq<char>,
    new_dir: Seq<char>,
) -> ActionInstanceV {
    ActionInstanceV {
        context: spec_ctx_at(dst, 0),
        states: Seq::new(
            i.states.len(),
            |k: int|
                ActionStateV {
                    image: spec_swap_prefix(i.states[k].image, old_dir, new_dir),
                    ..i.states[k]
                },
        ),
        children: match i.children {
            Some(cs) => Some(
                Seq::new(cs.len(), |k: int| spec_move_child(cs[k], dst, (k + 1) as u16)),
            ),
            None => None,
        },
        ..i
    }
}

/// What moving a slot does: nothing across controllers, from an empty
/// slot, or onto an occupied one; otherwise the re-addressed instance
/// lands at the destination, and the source empties unless it is retained.
pub open spec fn spec_move_instance(
    s: StoresV,
    src: ContextV,
    dst: ContextV,
    retain: bool,
    old_dir: Seq<char>,
    new_dir: Seq<char>,
) -> (StoresV, Option<ActionInstanceV>) {
    if src.controller != dst.controller {
        (s, None)
    } else {
        match spec_slot_of(s, src) {
            Some(Some(i)) => if (match i.children {
                Some(cs) => cs.len() > u16::MAX,
                None => false,
            }) {
                (s, None)
            } else {
                match spec_slot_of(s, dst) {
                    Some(None) => {
                        let moved = spec_moved_instance(i, dst, old_dir, new_dir);
                        let placed = spec_set_slot(s, dst, Some(moved));
                        if retain {
                            (placed, Some(moved))
                        } else {
                            (spec_set_slot(placed, src, None), Some(moved))
                        }
                    },
                    _ => (s, None),
                }
            },
            _ => (s, None),
        }
    }
}

/// Move the instance at one slot to another on the same controller,
/// optionally keeping the source as a copy. The image directories are
/// where the caller keeps the two slots' externalized images; state images
/// under the old directory follow to the new one.
#[verifier::rlimit(60)]
pub fn move_instance(
    stores: &mut ProfileStores,
    source: &Context,
    destination: &Context,
    retain: bool,
    old_images_dir: &str,
    new_images_dir: &str,
) -> (r: Result<Option<ActionInstance>, Error>)
    ensures
        final(stores)@ == spec_move_instance(
            old(stores)@,
            source@,
            destination@,
            retain,
            old_images_dir@,
            new_images_dir@,
        ).0,
        match r {
            Ok(Some(i)) => spec_move_instance(
                old(stores)@,
                source@,
                destination@,
                retain,
                old_images_dir@,
                new_images_dir@,
            ).1 == Some(i@),
            Ok(None) => spec_move_instance(
                old(stores)@,
                source@,
                destination@,
                retain,
                old_images_dir@,
                new_images_dir@,
            ).1 is None,
            Err(e) => e.kind == ErrorKind::NotFound,
        },
{
    if source.controller != destination.controller {
        return Ok(None);
    }
    let src_slot = match stores.get_slot(source) {
        Ok(s) => s,
        Err(e) => {
            return Err(e);
        },
    };
    let original = match src_slot {
        None => {
            return Ok(None);
        },
        Some(i) => dup_instance(i),
    };
    match &original.children {
        Some(cs) => {
            if cs.len() > 65535 {
                return Ok(None);
            }
        },
        None => {},
    }
    let dst_slot = match stores.get_slot(destination) {
        Ok(s) => s,
        Err(e) => {
            return Err(e);
        },
    };
    if dst_slot.is_some() {
        return Ok(None);
    }
    let children: Option<Vec<ChildInstance>> = match &original.children {
        None => None,
        Some(cs) => {
            let mut out: Vec<ChildInstance> = Vec::new();
            let mut k: usize = 0;
            while k < cs.len()
                invariant
                    0 <= k <= cs@.len(),
                    cs@.len() <= u16::MAX,
                    out@.len() == k,
                    forall|j: int|
                        0 <= j < k ==> #[trigger] out.deep_view()[j] == spec_move_child(
                            cs.deep_view()[j],
                            destination@,
                            (j + 1) as u16,
                        ),
                decreases cs@.len() - k,
            {
                proof {
                    assert(cs.deep_view()[k as int] == cs@[k as int]@);
                }
                let child = &cs[k];
                let mut states: Vec<ActionState> = Vec::new();
                let mut i: usize = 0;
                while i < child.states.len()
                    invariant
                        0 <= i <= child.states@.len(),
                        states@.len() == i,
                        forall|j: int|
                            0 <= j < i ==> #[trigger] states.deep_view()[j] == (ActionStateV {
                                image: if j < child.action.states.deep_view().len()
                                    && child.action.states.deep_view()[j].image.len() > 0 {
                                    child.action.states.deep_view()[j].image
                                } else {
                                    child.action.icon@
                                },
                                ..child.states.deep_view()[j]
                            }),
                    decreases child.states@.len() - i,
                {
                    let ghost prev = states.deep_view();
                    let mut st = dup_action_state(&child.states[i]);
                    st.image = if i < child.action.states.len() && child.action.states[i]
                        .image
                        .as_str()
                        .unicode_len() > 0 {
                        child.action.states[i].image.clone()
                    } else {
                        child.action.icon.clone()
                    };
                    states.push(st);
                    proof {
                        assert(child.states.deep_view()[i as int] == child.states@[i as int]@);
                        assert(child.action.states.deep_view().len()
                            == child.action.states@.len());
                        assert forall|j: int|
                            0 <= j < i + 1 implies #[trigger] states.deep_view()[j] == if j < i {
                            prev[j]
                        } else {
                            states.deep_view()[i as int]
                        } by {
                            assert(states.deep_view()[j] == states@[j]@);
                        }
                        if (i as int) < child.action.states.deep_view().len() {
                            assert(child.action.states.deep_view()[i as int]
                                == child.action.states@[i as int]@);
                        }
                    }
                    i = i + 1;
                }
                proof {
                    assert(states.deep_view() =~= spec_reset_child_states(
                        child.states.deep_view(),
                        child.action.states.deep_view(),
                        child.action.icon@,
                    ));
                }
                let moved_child = ChildInstance {
                    action: dup_action(&child.action),
                    context: ActionContext::from_context(
                        dup_context(destination),
                        (k + 1) as u16,
                    ),
                    states,
                    current_state: child.current_state,
                    settings: child.settings.clone(),
                };
                proof {
                    let m = spec_move_child(
                        cs.deep_view()[k as int],
                        destination@,
                        (k + 1) as u16,
                    );
                    assert(moved_child@.action == m.action);
                    assert(moved_child@.context == m.context);
                    assert(moved_child@.states == m.states);
                    assert(moved_child@ == m);
                }
                let ghost oprev = out.deep_view();
                out.push(moved_child);
                proof {
                    assert forall|j: int|
                        0 <= j < k + 1 implies #[trigger] out.deep_view()[j] == spec_move_child(
                        cs.deep_view()[j],
                        destination@,
                        (j + 1) as u16,
                    ) by {
                        assert(out.deep_view()[j] == out@[j]@);
                        if j < k {
                            assert(out@[j]@ == oprev[j]);
                        }
                    }
                }
                k = k + 1;
            }
            Some(out)
        },
    };
    let mut states: Vec<ActionState> = Vec::new();
    let mut i: usize = 0;
    while i < original.states.len()
        invariant
            0 <= i <= original.states@.len(),
            states@.len() == i,
            forall|j: int|
                0 <= j < i ==> #[trigger] states.deep_view()[j] == (ActionStateV {
                    image: spec_swap_prefix(
                        original.states.deep_view()[j].image,
                        old_images_dir@,
                        new_images_dir@,
                    ),
                    ..original.states.deep_view()[j]
                }),
        decreases original.states@.len() - i,
    {
        let ghost prev = states.deep_view();
        let mut st = dup_action_state(&original.states[i]);
        st.image = swap_prefix(st.image.as_str(), old_images_dir, new_images_dir);
        states.push(st);
        proof {
            assert(original.states.deep_view()[i as int] == original.states@[i as int]@);
            assert forall|j: int| 0 <= j < i + 1 implies #[trigger] states.deep_view()[j]
                == if j < i {
                prev[j]
            } else {
                states.deep_view()[i as int]
            } by {
                assert(states.deep_view()[j] == states@[j]@);
            }
        }
        i = i + 1;
    }
    let moved = ActionInstance {
        action: dup_action(&original.action),
        context: ActionContext::from_context(dup_context(destination), 0),
        states,
        current_state: original.current_state,
        settings: original.settings.clone(),
        children,
    };
    let result = dup_instance(&moved);
    proof {
        let m = spec_moved_instance(
            original@,
            destination@,
            old_images_dir@,
            new_images_dir@,
        );
        assert(moved@.states =~= m.states);
        match (&moved.children, original@.children) {
            (Some(out), Some(cs)) => {
                assert(moved@.children matches Some(a) && a =~= Seq::new(
                    cs.len(),
                    |k: int| spec_move_child(cs[k], destination@, (k + 1) as u16),
                ));
            },
            _ => {},
        }
        assert(moved@ == m);
    }
    stores.set_slot(destination, Some(moved));
    if !retain {
        stores.set_slot(source, None);
    }
    Ok(Some(result))
}

} // verus!



