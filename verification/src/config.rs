//! Checks on render settings before any frame is drawn.

use vstd::prelude::*;
use crate::errors::ConfigError;
use crate::scenes::{SceneKind, is_known_scene, known_scene_names, known_scenes, scene_by_name, scene_named};
use crate::text::{join_strs, joined};

verus! {

/// The message for an unknown scene name during validation.
pub open spec fn unknown_scene_message(name: Seq<char>) -> Seq<char> {
    "Unknown scene '"@ + name + "'. Available scenes: "@ + joined(known_scene_names(), ", "@)
        + ". Run `frameseed list-scenes` for details."@
}

/// The first problem with the settings, in the order width, height, frame
/// rate, duration, seed, scene name; `None` when they are usable.
pub open spec fn settings_problem(
    width: u32,
    height: u32,
    fps_not_positive: bool,
    duration_not_positive: bool,
    seed: u64,
    scene_name: Seq<char>,
) -> Option<Seq<char>> {
    if width == 0 {
        Some("Width must be greater than 0. Set `width = 640` (or another positive value) in your config."@)
    } else if height == 0 {
        Some("Height must be greater than 0. Set `height = 360` (or another positive value) in your config."@)
    } else if fps_not_positive {
        Some("FPS must be greater than 0. Set `fps = 24.0` (or another positive value) in your config."@)
    } else if duration_not_positive {
        Some("Duration must be greater than 0. Set `duration = 5.0` for a five-second clip."@)
    } else if seed == 0 {
        Some("Seed must be greater than 0. Use any positive integer, e.g. `seed = 42`."@)
    } else if scene_name.len() == 0 {
        Some(
            "Scene name is missing. Add `[scene]` with `name = \"gradient\"` (or another scene from `frameseed list-scenes`)."@,
        )
    } else if !known_scene_names().contains(scene_name) {
        Some(unknown_scene_message(scene_name))
    } else {
        None
    }
}

fn invalid(msg: &str) -> (e: ConfigError)
    ensures
        e matches ConfigError::Invalid(m) && m@ == msg@,
{
    ConfigError::Invalid(String::from_str(msg))
}

/// Validates render settings. `fps_not_positive` and `duration_not_positive`
/// report whether the frame rate and duration fail to be greater than 0 (a NaN
/// value is not greater than 0).
pub fn validate_settings(
    width: u32,
    height: u32,
    fps_not_positive: bool,
    duration_not_positive: bool,
    seed: u64,
    scene_name: &str,
) -> (r: Result<(), ConfigError>)
    ensures
        match settings_problem(width, height, fps_not_positive, duration_not_positive, seed, scene_name@) {
            None => r is Ok,
            Some(msg) => r matches Err(ConfigError::Invalid(m)) && m@ == msg,
        },
{
    if width == 0 {
        return Err(
            invalid("Width must be greater than 0. Set `width = 640` (or another positive value) in your config."),
        );
    }
    if height == 0 {
        return Err(
            invalid("Height must be greater than 0. Set `height = 360` (or another positive value) in your config."),
        );
    }
    if fps_not_positive {
        return Err(
            invalid("FPS must be greater than 0. Set `fps = 24.0` (or another positive value) in your config."),
        );
    }
    if duration_not_positive {
        return Err(invalid("Duration must be greater than 0. Set `duration = 5.0` for a five-second clip."));
    }
    if seed == 0 {
        return Err(invalid("Seed must be greater than 0. Use any positive integer, e.g. `seed = 42`."));
    }
    if scene_name.unicode_len() == 0 {
        return Err(
            invalid(
                "Scene name is missing. Add `[scene]` with `name = \"gradient\"` (or another scene from `frameseed list-scenes`).",
            ),
        );
    }
    if !is_known_scene(scene_name) {
        let mut msg = String::from_str("Unknown scene '");
        msg.append(scene_name);
        msg.append("'. Available scenes: ");
        let names = known_scenes();
        let list = join_strs(&names, ", ");
        msg.append(list.as_str());
        msg.append(". Run `frameseed list-scenes` for details.");
        return Err(ConfigError::Invalid(msg));
    }
    Ok(())
}

/// The message when a scene is requested by a name no scene answers to.
pub open spec fn unresolved_scene_message(name: Seq<char>) -> Seq<char> {
    "Unknown scene '"@ + name + "'. Run `frameseed list-scenes` to see available scenes: "@ + joined(
        known_scene_names(),
        ", "@,
    )
}

/// The error for a scene name that no scene answers to.
pub fn unknown_scene_error(name: &str) -> (e: ConfigError)
    ensures
        e matches ConfigError::Invalid(m) && m@ == unresolved_scene_message(name@),
{
    let mut msg = String::from_str("Unknown scene '");
    msg.append(name);
    msg.append("'. Run `frameseed list-scenes` to see available scenes: ");
    let names = known_scenes();
    let list = join_strs(&names, ", ");
    msg.append(list.as_str());
    ConfigError::Invalid(msg)
}

/// The scene a configuration names, or the error for a name no scene answers to.
pub fn scene_kind(name: &str) -> (r: Result<SceneKind, ConfigError>)
    ensures
        match scene_named(name@) {
            Some(k) => r matches Ok(s) && s == k,
            None => r matches Err(ConfigError::Invalid(m)) && m@ == unresolved_scene_message(name@),
        },
{
    match scene_by_name(name) {
        Some(k) => Ok(k),
        None => Err(unknown_scene_error(name)),
    }
}

} // verus!
