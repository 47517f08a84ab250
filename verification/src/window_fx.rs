//! The window's glass material: the level the fallback chain ends on, the
//! three transparency tiers, and the tint that goes with a tier.

use vstd::prelude::*;

verus! {

/// Which material the fallback chain (Acrylic, then Mica, then a solid
/// colour) ended on; the front end adds its own solid background for `Solid`.
#[derive(Debug, Clone, Copy, PartialEq, Eq, Structural)]
pub enum EffectLevel {
    Acrylic,
    Mica,
    Solid,
}

/// The three transparency tiers: `Low` is the most opaque, `High` the most
/// see-through, `Mid` the default.
#[derive(Debug, Clone, Copy, PartialEq, Eq, Structural)]
pub enum TransparencyTier {
    Low,
    Mid,
    High,
}

impl Default for TransparencyTier {
    fn default() -> (t: TransparencyTier)
        ensures
            t == TransparencyTier::Mid,
    {
        TransparencyTier::Mid
    }
}

/// The alpha (0 to 255) of the compositor's acrylic tint for a tier.
pub open spec fn tier_dwm_alpha(t: TransparencyTier) -> u8 {
    match t {
        TransparencyTier::Low => 60,
        TransparencyTier::Mid => 40,
        TransparencyTier::High => 16,
    }
}

impl TransparencyTier {
    /// The alpha channel of the acrylic tint for this tier.
    pub fn dwm_alpha(self) -> (a: u8)
        ensures
            a == tier_dwm_alpha(self),
    {
        match self {
            TransparencyTier::Low => 60,
            TransparencyTier::Mid => 40,
            TransparencyTier::High => 16,
        }
    }
}

/// A straight RGBA colour.
#[derive(Debug, Clone, Copy, PartialEq, Eq, Structural)]
pub struct Rgba {
    pub r: u8,
    pub g: u8,
    pub b: u8,
    pub a: u8,
}

/// The neutral tint laid over the acrylic material: near-black on a dark
/// theme, near-white otherwise, with the tier's alpha.
pub fn neutral_acrylic_tint(dark_theme: bool, tier: TransparencyTier) -> (c: Rgba)
    ensures
        c.a == tier_dwm_alpha(tier),
        dark_theme ==> c.r == 18 && c.g == 18 && c.b == 20,
        !dark_theme ==> c.r == 246 && c.g == 246 && c.b == 248,
{
    let alpha = tier.dwm_alpha();
    if dark_theme {
        Rgba { r: 18, g: 18, b: 20, a: alpha }
    } else {
        Rgba { r: 246, g: 246, b: 248, a: alpha }
    }
}

/// The accent state that asks for acrylic blur behind the window.
pub const ACCENT_ENABLE_ACRYLICBLURBEHIND: u32 = 4;
/// The accent state that turns the accent off.
pub const ACCENT_DISABLED: u32 = 0;

/// The accent policy handed to `SetWindowCompositionAttribute`.
#[derive(Debug, Clone, Copy, PartialEq, Eq, Structural)]
pub struct AccentPolicy {
    pub accent_state: u32,
    pub accent_flags: u32,
    pub gradient_color: u32,
    pub animation_id: u32,
}

/// `r | g << 8 | b << 16 | a << 24`.
pub open spec fn packed_color(c: Rgba) -> int {
    c.r + c.g * 0x100 + c.b * 0x1_0000 + c.a * 0x100_0000
}

/// The accent policy for a state and an optional colour (none counts as
/// transparent black). Acrylic does not show at alpha 0, so alpha 0 becomes
/// 1 there; the flags are 0 for acrylic and 2 otherwise.
pub fn accent_policy(accent_state: u32, color: Option<Rgba>) -> (p: AccentPolicy)
    ensures
        p.accent_state == accent_state,
        p.animation_id == 0,
        p.accent_flags == (if accent_state == ACCENT_ENABLE_ACRYLICBLURBEHIND {
            0u32
        } else {
            2u32
        }),
        p.gradient_color == packed_color(
            {
                let c = match color {
                    Some(c) => c,
                    None => Rgba { r: 0, g: 0, b: 0, a: 0 },
                };
                if accent_state == ACCENT_ENABLE_ACRYLICBLURBEHIND && c.a == 0 {
                    Rgba { a: 1, ..c }
                } else {
                    c
                }
            },
        ),
{
    let mut c = match color {
        Some(c) => c,
        None => Rgba { r: 0, g: 0, b: 0, a: 0 },
    };
    let is_acrylic = accent_state == ACCENT_ENABLE_ACRYLICBLURBEHIND;
    if is_acrylic && c.a == 0 {
        c.a = 1;
    }
    let packed: u32 = (c.r as u32) + (c.g as u32) * 0x100 + (c.b as u32) * 0x1_0000 + (c.a as u32)
        * 0x100_0000;
    AccentPolicy {
        accent_state,
        accent_flags: if is_acrylic {
            0
        } else {
            2
        },
        gradient_color: packed,
        animation_id: 0,
    }
}

/// Where the fallback chain ends, given which requests went through: acrylic
/// first, then mica, else a solid colour.
pub fn fallback_level(acrylic_ok: bool, mica_ok: bool) -> (l: EffectLevel)
    ensures
        l == (if acrylic_ok {
            EffectLevel::Acrylic
        } else if mica_ok {
            EffectLevel::Mica
        } else {
            EffectLevel::Solid
        }),
{
    if acrylic_ok {
        EffectLevel::Acrylic
    } else if mica_ok {
        EffectLevel::Mica
    } else {
        EffectLevel::Solid
    }
}

/// The material level in effect, kept for the front end to query.
pub struct EffectLevelState {
    level: EffectLevel,
}

impl EffectLevelState {
    pub closed spec fn level(&self) -> EffectLevel {
        self.level
    }

    pub fn new(level: EffectLevel) -> (s: EffectLevelState)
        ensures
            s.level() == level,
    {
        EffectLevelState { level }
    }

    pub fn get(&self) -> (l: EffectLevel)
        ensures
            l == self.level(),
    {
        self.level
    }

    pub fn set(&mut self, level: EffectLevel)
        ensures
            final(self).level() == level,
    {
        self.level = level;
    }
}

/// Integer division by two, truncating toward zero as Rust's `/` does.
pub open spec fn half_toward_zero(a: int) -> int {
    if a >= 0 {
        a / 2
    } else {
        -((-a) / 2)
    }
}

/// The left edge that centres a window of width `win_w` on a monitor at
/// `screen_x` of width `screen_w` (the window is raised to about a fifth of
/// the height from the top by the shell).
pub fn centered_left(screen_x: i32, screen_w: u32, win_w: u32) -> (x: i64)
    ensures
        x == screen_x + half_toward_zero(screen_w - win_w),
{
    let d: i64 = (screen_w as i64) - (win_w as i64);
    let h: i64 = if d >= 0 {
        d / 2
    } else {
        -((-d) / 2)
    };
    screen_x as i64 + h
}

} // verus!
