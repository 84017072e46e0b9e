//! Which effects a configuration enables, and in which order they run.

use vstd::prelude::*;

verus! {

/// The effects a configuration can enable.
#[derive(Debug, Clone, Copy, PartialEq, Eq, Structural)]
pub enum EffectKind {
    MotionBlur,
    Invert,
    Pixelation,
    Dither,
    Palette,
    VhsCrt,
    Blur,
}

impl EffectKind {
    /// The name the effect reports.
    pub fn name(self) -> (n: &'static str)
        ensures
            n@ == match self {
                EffectKind::MotionBlur => "motion_blur"@,
                EffectKind::Invert => "invert"@,
                EffectKind::Pixelation => "pixelation"@,
                EffectKind::Dither => "dither"@,
                EffectKind::Palette => "palette"@,
                EffectKind::VhsCrt => "vhs_crt"@,
                EffectKind::Blur => "blur"@,
            },
    {
        match self {
            EffectKind::MotionBlur => "motion_blur",
            EffectKind::Invert => "invert",
            EffectKind::Pixelation => "pixelation",
            EffectKind::Dither => "dither",
            EffectKind::Palette => "palette",
            EffectKind::VhsCrt => "vhs_crt",
            EffectKind::Blur => "blur",
        }
    }
}

/// What the effects section of a configuration switches on: one flag per
/// effect, and the pixelation block size when that section is present.
pub struct EffectSwitches {
    pub motion_blur: bool,
    pub invert: bool,
    pub pixelation_block: Option<u32>,
    pub dither: bool,
    pub palette: bool,
    pub vhs_crt: bool,
    pub blur: bool,
}

/// `kind` alone when `on`, else nothing.
pub open spec fn if_on(on: bool, kind: EffectKind) -> Seq<EffectKind> {
    if on {
        seq![kind]
    } else {
        Seq::empty()
    }
}

/// The effects to run, in order: motion blur, invert, pixelation (only with
/// blocks larger than one pixel), dither, palette, VHS/CRT, blur.
pub open spec fn effect_plan_spec(s: EffectSwitches) -> Seq<EffectKind> {
    if_on(s.motion_blur, EffectKind::MotionBlur) + if_on(s.invert, EffectKind::Invert) + if_on(
        s.pixelation_block matches Some(b) && b > 1,
        EffectKind::Pixelation,
    ) + if_on(s.dither, EffectKind::Dither) + if_on(s.palette, EffectKind::Palette) + if_on(
        s.vhs_crt,
        EffectKind::VhsCrt,
    ) + if_on(s.blur, EffectKind::Blur)
}

fn push_if(plan: &mut Vec<EffectKind>, on: bool, kind: EffectKind)
    ensures
        final(plan)@ == old(plan)@ + if_on(on, kind),
{
    if on {
        plan.push(kind);
    }
    assert(final(plan)@ =~= old(plan)@ + if_on(on, kind));
}

/// The effect pipeline a configuration asks for, in running order.
pub fn effect_plan(switches: &EffectSwitches) -> (plan: Vec<EffectKind>)
    ensures
        plan@ == effect_plan_spec(*switches),
{
    let mut plan: Vec<EffectKind> = Vec::new();
    push_if(&mut plan, switches.motion_blur, EffectKind::MotionBlur);
    push_if(&mut plan, switches.invert, EffectKind::Invert);
    let pixelate = match switches.pixelation_block {
        Some(b) => b > 1,
        None => false,
    };
    push_if(&mut plan, pixelate, EffectKind::Pixelation);
    push_if(&mut plan, switches.dither, EffectKind::Dither);
    push_if(&mut plan, switches.palette, EffectKind::Palette);
    push_if(&mut plan, switches.vhs_crt, EffectKind::VhsCrt);
    push_if(&mut plan, switches.blur, EffectKind::Blur);
    assert(plan@ =~= effect_plan_spec(*switches));
    plan
}

} // verus!
