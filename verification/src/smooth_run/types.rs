//! The sprite table as data, and the mathematical model of it that contracts
//! speak of.

use crate::text::texts;
use std::collections::HashMap;
use vstd::prelude::*;

verus! {

/// One action line of a sprite.
#[derive(Debug, PartialEq, Eq)]
pub struct Action {
    pub line_idx: usize,
    pub indent: String,
    pub base_action: u32,
    pub dash_variant: Option<u32>,
    pub name: String,
    pub content: String,
    pub direction: u32,
    pub frame_count: u32,
    pub first_spr: u32,
    pub framerate_at_parse: Option<String>,
}

/// A sprite: its header line and the actions below it.
#[derive(Debug, PartialEq, Eq)]
pub struct Sprite {
    pub sid: u16,
    pub header_line_idx: usize,
    pub header_text: String,
    pub img_count: u32,
    pub gfx_id: Option<u32>,
    pub name: String,
    pub framerate: Option<String>,
    pub actions: Vec<Action>,
}

/// A sprite table.
#[derive(Debug, PartialEq, Eq)]
pub struct SpriteFile {
    pub file_header: String,
    pub sprites: Vec<Sprite>,
    pub raw_lines: Vec<String>,
    pub ends_with_newline: bool,
}

/// What a sprite's animations are for.
#[derive(Debug, Clone, Copy, PartialEq, Eq, Structural)]
pub enum SpriteRole {
    Walk,
    Run,
    Both,
    Neither,
}

/// The frames for the left and the right foot of a running sprite.
#[derive(Debug, PartialEq, Eq)]
pub struct RunPair {
    pub runl: Option<String>,
    pub runr: Option<String>,
    pub framerate: Option<String>,
    pub source_img_count: u32,
}

pub type RoleMap = HashMap<u16, SpriteRole>;

pub type RunPairMap = HashMap<u16, RunPair>;

/// The model of an [`Action`].
#[verifier::ext_equal]
pub struct ActionModel {
    pub line_idx: int,
    pub indent: Seq<char>,
    pub base_action: u32,
    pub dash_variant: Option<u32>,
    pub name: Seq<char>,
    pub content: Seq<char>,
    pub direction: u32,
    pub frame_count: u32,
    pub first_spr: u32,
    pub framerate_at_parse: Option<Seq<char>>,
}

/// The model of a [`Sprite`].
#[verifier::ext_equal]
pub struct SpriteModel {
    pub sid: u16,
    pub header_line_idx: int,
    pub header_text: Seq<char>,
    pub img_count: u32,
    pub gfx_id: Option<u32>,
    pub name: Seq<char>,
    pub framerate: Option<Seq<char>>,
    pub actions: Seq<ActionModel>,
}

/// The model of a [`SpriteFile`].
#[verifier::ext_equal]
pub struct SpriteFileModel {
    pub file_header: Seq<char>,
    pub sprites: Seq<SpriteModel>,
    pub raw_lines: Seq<Seq<char>>,
    pub ends_with_newline: bool,
}

/// The model of a [`RunPair`].
#[verifier::ext_equal]
pub struct RunPairModel {
    pub runl: Option<Seq<char>>,
    pub runr: Option<Seq<char>>,
    pub framerate: Option<Seq<char>>,
    pub source_img_count: u32,
}

/// The text that an optional string holds.
pub open spec fn opt_text(o: Option<String>) -> Option<Seq<char>> {
    match o {
        Some(s) => Some(s@),
        None => None,
    }
}

/// The models of a list of actions.
pub open spec fn action_models(v: Seq<Action>) -> Seq<ActionModel> {
    v.map_values(|a: Action| a@)
}

/// The models of a list of sprites.
pub open spec fn sprite_models(v: Seq<Sprite>) -> Seq<SpriteModel> {
    v.map_values(|s: Sprite| s@)
}

/// The models of a map of run pairs.
pub open spec fn pair_models(m: Map<u16, RunPair>) -> Map<u16, RunPairModel> {
    m.map_values(|p: RunPair| p@)
}

impl View for Action {
    type V = ActionModel;

    open spec fn view(&self) -> ActionModel {
        ActionModel {
            line_idx: self.line_idx as int,
            indent: self.indent@,
            base_action: self.base_action,
            dash_variant: self.dash_variant,
            name: self.name@,
            content: self.content@,
            direction: self.direction,
            frame_count: self.frame_count,
            first_spr: self.first_spr,
            framerate_at_parse: opt_text(self.framerate_at_parse),
        }
    }
}

impl View for Sprite {
    type V = SpriteModel;

    open spec fn view(&self) -> SpriteModel {
        SpriteModel {
            sid: self.sid,
            header_line_idx: self.header_line_idx as int,
            header_text: self.header_text@,
            img_count: self.img_count,
            gfx_id: self.gfx_id,
            name: self.name@,
            framerate: opt_text(self.framerate),
            actions: action_models(self.actions@),
        }
    }
}

impl View for SpriteFile {
    type V = SpriteFileModel;

    open spec fn view(&self) -> SpriteFileModel {
        SpriteFileModel {
            file_header: self.file_header@,
            sprites: sprite_models(self.sprites@),
            raw_lines: texts(self.raw_lines@),
            ends_with_newline: self.ends_with_newline,
        }
    }
}

impl View for RunPair {
    type V = RunPairModel;

    open spec fn view(&self) -> RunPairModel {
        RunPairModel {
            runl: opt_text(self.runl),
            runr: opt_text(self.runr),
            framerate: opt_text(self.framerate),
            source_img_count: self.source_img_count,
        }
    }
}

/// A copy of an optional string.
pub fn clone_text(o: &Option<String>) -> (r: Option<String>)
    ensures
        opt_text(r) == opt_text(*o),
{
    match o {
        Some(s) => Some(s.clone()),
        None => None,
    }
}

impl Clone for Action {
    fn clone(&self) -> (r: Action)
        ensures
            r@ == self@,
    {
        Action {
            line_idx: self.line_idx,
            indent: self.indent.clone(),
            base_action: self.base_action,
            dash_variant: self.dash_variant,
            name: self.name.clone(),
            content: self.content.clone(),
            direction: self.direction,
            frame_count: self.frame_count,
            first_spr: self.first_spr,
            framerate_at_parse: clone_text(&self.framerate_at_parse),
        }
    }
}

impl Clone for RunPair {
    fn clone(&self) -> (r: RunPair)
        ensures
            r@ == self@,
    {
        RunPair {
            runl: clone_text(&self.runl),
            runr: clone_text(&self.runr),
            framerate: clone_text(&self.framerate),
            source_img_count: self.source_img_count,
        }
    }
}

} // verus!
