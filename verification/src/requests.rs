use vstd::prelude::*;

verus! {

/// Width of the decoration border drawn around every frame window.
pub const BORDER_WIDTH: u16 = 3;

/// Event-mask bit: report notify events about children of the selected window.
pub const EVENT_MASK_SUBSTRUCTURE_NOTIFY: u32 = 0x0008_0000;

/// Event-mask bit: redirect map and configure requests of children of the
/// selected window to the selecting client. Only one client per window may
/// hold it; a second selection fails with an access-denied error.
pub const EVENT_MASK_SUBSTRUCTURE_REDIRECT: u32 = 0x0010_0000;

/// The mask a window manager selects on the root window and on each frame.
pub const WM_EVENT_MASK: u32 = EVENT_MASK_SUBSTRUCTURE_NOTIFY | EVENT_MASK_SUBSTRUCTURE_REDIRECT;

/// Configure-request mask bits: which geometry fields a request names.
pub const CONFIG_WINDOW_X: u16 = 0x0001;

pub const CONFIG_WINDOW_Y: u16 = 0x0002;

pub const CONFIG_WINDOW_WIDTH: u16 = 0x0004;

pub const CONFIG_WINDOW_HEIGHT: u16 = 0x0008;

pub const CONFIG_WINDOW_BORDER_WIDTH: u16 = 0x0010;

pub const CONFIG_WINDOW_SIBLING: u16 = 0x0020;

pub const CONFIG_WINDOW_STACK_MODE: u16 = 0x0040;

/// The requested geometry fields of a configure request, together with the
/// mask saying which of them the requester actually asked for; unmasked
/// fields must be left untouched. Sibling and stack mode are restacking hints.
#[derive(Clone, Copy, Debug, PartialEq, Eq, Structural)]
pub struct ConfigureChanges {
    pub x: i16,
    pub y: i16,
    pub width: u16,
    pub height: u16,
    pub border_width: u16,
    pub sibling: u32,
    pub stack_mode: u8,
    pub value_mask: u16,
}

/// One entry of the value list of a configure-window request: a geometry
/// field actually being set, with the literal requested value.
#[derive(Clone, Copy, Debug, PartialEq, Eq, Structural)]
pub enum ConfigValue {
    X(i16),
    Y(i16),
    Width(u16),
    Height(u16),
    BorderWidth(u16),
    Sibling(u32),
    StackMode(u8),
}

/// The mask bit that announces a value-list entry of this kind.
pub open spec fn value_mask_bit(v: ConfigValue) -> u16 {
    match v {
        ConfigValue::X(_) => CONFIG_WINDOW_X,
        ConfigValue::Y(_) => CONFIG_WINDOW_Y,
        ConfigValue::Width(_) => CONFIG_WINDOW_WIDTH,
        ConfigValue::Height(_) => CONFIG_WINDOW_HEIGHT,
        ConfigValue::BorderWidth(_) => CONFIG_WINDOW_BORDER_WIDTH,
        ConfigValue::Sibling(_) => CONFIG_WINDOW_SIBLING,
        ConfigValue::StackMode(_) => CONFIG_WINDOW_STACK_MODE,
    }
}

/// A protocol request the manager issues. Each is performed checked, in the
/// order planned; a server-reported failure is handed back as the operation's
/// outcome. Queries (geometry fetches, tree enumeration) are not listed here:
/// their replies are inputs to the manager, not effects of it.
#[derive(Clone, Copy, Debug, PartialEq, Eq, Structural)]
pub enum Request {
    /// Change the target window's event mask (substructure redirect + notify).
    SelectSubstructureEvents { window: u32, event_mask: u32 },
    /// Suspend processing of every other client's requests.
    GrabServer,
    /// Resume processing of other clients' requests.
    UngrabServer,
    /// Create a decoration window as a child of `parent` at the given
    /// geometry, with the manager's fixed border width, inheriting the
    /// parent's depth and using the given visual.
    CreateWindow {
        window: u32,
        parent: u32,
        x: i16,
        y: i16,
        width: u16,
        height: u16,
        border_width: u16,
        visual: u32,
    },
    /// Insert the window into the server's save set, so the server reparents
    /// it back to the root if the manager's connection dies.
    AddToSaveSet { window: u32 },
    /// Remove the window from the server's save set.
    RemoveFromSaveSet { window: u32 },
    /// Make `window` a child of `parent` at the given offset.
    ReparentWindow { window: u32, parent: u32, x: i16, y: i16 },
    MapWindow { window: u32 },
    UnmapWindow { window: u32 },
    DestroyWindow { window: u32 },
    /// Apply exactly the fields masked in `changes` to `window`; the value
    /// list on the wire is `configure_values(changes)`.
    ConfigureWindow { window: u32, changes: ConfigureChanges },
}

/// The value list of a configure-window request: one entry per masked field,
/// in the protocol's fixed field order, carrying the literal requested value.
pub open spec fn spec_configure_values(c: ConfigureChanges) -> Seq<ConfigValue> {
    let s0 = Seq::<ConfigValue>::empty();
    let s1 = if c.value_mask & CONFIG_WINDOW_X != 0 {
        s0.push(ConfigValue::X(c.x))
    } else {
        s0
    };
    let s2 = if c.value_mask & CONFIG_WINDOW_Y != 0 {
        s1.push(ConfigValue::Y(c.y))
    } else {
        s1
    };
    let s3 = if c.value_mask & CONFIG_WINDOW_WIDTH != 0 {
        s2.push(ConfigValue::Width(c.width))
    } else {
        s2
    };
    let s4 = if c.value_mask & CONFIG_WINDOW_HEIGHT != 0 {
        s3.push(ConfigValue::Height(c.height))
    } else {
        s3
    };
    let s5 = if c.value_mask & CONFIG_WINDOW_BORDER_WIDTH != 0 {
        s4.push(ConfigValue::BorderWidth(c.border_width))
    } else {
        s4
    };
    let s6 = if c.value_mask & CONFIG_WINDOW_SIBLING != 0 {
        s5.push(ConfigValue::Sibling(c.sibling))
    } else {
        s5
    };
    if c.value_mask & CONFIG_WINDOW_STACK_MODE != 0 {
        s6.push(ConfigValue::StackMode(c.stack_mode))
    } else {
        s6
    }
}

/// Build the value list a configure-window request puts on the wire.
pub fn configure_values(c: &ConfigureChanges) -> (r: Vec<ConfigValue>)
    ensures
        r@ == spec_configure_values(*c),
{
    let mut v: Vec<ConfigValue> = Vec::new();
    if c.value_mask & CONFIG_WINDOW_X != 0 {
        v.push(ConfigValue::X(c.x));
    }
    if c.value_mask & CONFIG_WINDOW_Y != 0 {
        v.push(ConfigValue::Y(c.y));
    }
    if c.value_mask & CONFIG_WINDOW_WIDTH != 0 {
        v.push(ConfigValue::Width(c.width));
    }
    if c.value_mask & CONFIG_WINDOW_HEIGHT != 0 {
        v.push(ConfigValue::Height(c.height));
    }
    if c.value_mask & CONFIG_WINDOW_BORDER_WIDTH != 0 {
        v.push(ConfigValue::BorderWidth(c.border_width));
    }
    if c.value_mask & CONFIG_WINDOW_SIBLING != 0 {
        v.push(ConfigValue::Sibling(c.sibling));
    }
    if c.value_mask & CONFIG_WINDOW_STACK_MODE != 0 {
        v.push(ConfigValue::StackMode(c.stack_mode));
    }
    proof {
        assert(v@ =~= spec_configure_values(*c));
    }
    v
}

/// Every entry of the value list is for a masked field.
pub open spec fn masked_only(c: ConfigureChanges, s: Seq<ConfigValue>) -> bool {
    forall|k: int|
        0 <= k < s.len() ==> c.value_mask & value_mask_bit(#[trigger] s[k]) != 0
}

/// A configure request touches exactly the masked fields: the value list
/// holds no entry for an unmasked field, and for each masked field it holds
/// that field with the literal requested value.
pub proof fn lemma_configure_values_masked(c: ConfigureChanges)
    ensures
        masked_only(c, spec_configure_values(c)),
        c.value_mask & CONFIG_WINDOW_X != 0 ==> spec_configure_values(c).contains(
            ConfigValue::X(c.x),
        ),
        c.value_mask & CONFIG_WINDOW_Y != 0 ==> spec_configure_values(c).contains(
            ConfigValue::Y(c.y),
        ),
        c.value_mask & CONFIG_WINDOW_WIDTH != 0 ==> spec_configure_values(c).contains(
            ConfigValue::Width(c.width),
        ),
        c.value_mask & CONFIG_WINDOW_HEIGHT != 0 ==> spec_configure_values(c).contains(
            ConfigValue::Height(c.height),
        ),
        c.value_mask & CONFIG_WINDOW_BORDER_WIDTH != 0 ==> spec_configure_values(c).contains(
            ConfigValue::BorderWidth(c.border_width),
        ),
        c.value_mask & CONFIG_WINDOW_SIBLING != 0 ==> spec_configure_values(c).contains(
            ConfigValue::Sibling(c.sibling),
        ),
        c.value_mask & CONFIG_WINDOW_STACK_MODE != 0 ==> spec_configure_values(c).contains(
            ConfigValue::StackMode(c.stack_mode),
        ),
{
    let s0 = Seq::<ConfigValue>::empty();
    let s1 = if c.value_mask & CONFIG_WINDOW_X != 0 {
        s0.push(ConfigValue::X(c.x))
    } else {
        s0
    };
    let s2 = if c.value_mask & CONFIG_WINDOW_Y != 0 {
        s1.push(ConfigValue::Y(c.y))
    } else {
        s1
    };
    let s3 = if c.value_mask & CONFIG_WINDOW_WIDTH != 0 {
        s2.push(ConfigValue::Width(c.width))
    } else {
        s2
    };
    let s4 = if c.value_mask & CONFIG_WINDOW_HEIGHT != 0 {
        s3.push(ConfigValue::Height(c.height))
    } else {
        s3
    };
    let s5 = if c.value_mask & CONFIG_WINDOW_BORDER_WIDTH != 0 {
        s4.push(ConfigValue::BorderWidth(c.border_width))
    } else {
        s4
    };
    let s6 = if c.value_mask & CONFIG_WINDOW_SIBLING != 0 {
        s5.push(ConfigValue::Sibling(c.sibling))
    } else {
        s5
    };
    let s7 = if c.value_mask & CONFIG_WINDOW_STACK_MODE != 0 {
        s6.push(ConfigValue::StackMode(c.stack_mode))
    } else {
        s6
    };
    assert(spec_configure_values(c) == s7);
    assert(masked_only(c, s1));
    assert(masked_only(c, s2));
    assert(masked_only(c, s3));
    assert(masked_only(c, s4));
    assert(masked_only(c, s5));
    assert(masked_only(c, s6));
    assert(masked_only(c, s7));
    if c.value_mask & CONFIG_WINDOW_X != 0 {
        assert(s1[0] == ConfigValue::X(c.x));
        lemma_contains_after(s1, s7, ConfigValue::X(c.x));
    }
    if c.value_mask & CONFIG_WINDOW_Y != 0 {
        assert(s2.last() == ConfigValue::Y(c.y));
        lemma_contains_after(s2, s7, ConfigValue::Y(c.y));
    }
    if c.value_mask & CONFIG_WINDOW_WIDTH != 0 {
        assert(s3.last() == ConfigValue::Width(c.width));
        lemma_contains_after(s3, s7, ConfigValue::Width(c.width));
    }
    if c.value_mask & CONFIG_WINDOW_HEIGHT != 0 {
        assert(s4.last() == ConfigValue::Height(c.height));
        lemma_contains_after(s4, s7, ConfigValue::Height(c.height));
    }
    if c.value_mask & CONFIG_WINDOW_BORDER_WIDTH != 0 {
        assert(s5.last() == ConfigValue::BorderWidth(c.border_width));
        lemma_contains_after(s5, s7, ConfigValue::BorderWidth(c.border_width));
    }
    if c.value_mask & CONFIG_WINDOW_SIBLING != 0 {
        assert(s6.last() == ConfigValue::Sibling(c.sibling));
        lemma_contains_after(s6, s7, ConfigValue::Sibling(c.sibling));
    }
    if c.value_mask & CONFIG_WINDOW_STACK_MODE != 0 {
        assert(s7.last() == ConfigValue::StackMode(c.stack_mode));
    }
}

/// Pushing more entries keeps earlier entries in the list: `a` is a prefix
/// of `b`, so whatever `a` holds, `b` holds.
proof fn lemma_contains_after(a: Seq<ConfigValue>, b: Seq<ConfigValue>, x: ConfigValue)
    requires
        a.len() <= b.len(),
        forall|k: int| 0 <= k < a.len() ==> a[k] == b[k],
        a.contains(x),
    ensures
        b.contains(x),
{
    let i = choose|i: int| 0 <= i < a.len() && a[i] == x;
    assert(b[i] == x);
}

} // verus!
