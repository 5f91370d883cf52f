//! Reading a sprite table into its structure, without judging it.

use super::helpers::{
    action_name, action_number, extract_action_name, extract_frame_content,
    extract_inline_action_with_name, first_spr_from_content, first_spr_of, frame_content,
    frame_parts, header_ext, inline_scan, parse_action_number, parse_header_ext,
    parse_sprite_id, parse_variant_line, split_frame_content, sprite_id, variant_line,
};
use super::types::{
    action_models, clone_text, opt_text, sprite_models, Action, ActionModel, Sprite,
    SpriteFile, SpriteFileModel, SpriteModel,
};
use crate::text::{
    chars_of, lower_of, parse_dec, parse_u32, rows, split, split_of, string_of,
    texts, to_lowercase, trim, trim_of, trim_start, trim_start_of, words, words_of,
};
use vstd::prelude::*;
use vstd::slice::slice_subrange;

verus! {

/// The actions that may stand inside a header line, in the order in which they
/// are looked for.
pub open spec fn inline_codes() -> Seq<u32> {
    seq![0, 4, 11, 20, 24, 40, 46, 50, 54, 58, 62, 83, 88, 119, 32, 33]
}

fn inline_code_list() -> (r: [u32; 16])
    ensures
        r@ == inline_codes(),
{
    [0, 4, 11, 20, 24, 40, 46, 50, 54, 58, 62, 83, 88, 119, 32, 33]
}

/// What is known at some line: the sprites so far, and the frame rate that the
/// current sprite has set.
#[verifier::ext_equal]
pub struct ParseState {
    pub sprites: Seq<SpriteModel>,
    pub framerate: Option<Seq<char>>,
}

/// An action with the given frame data `<direction> <frames>,<frame> ...`. There
/// is none where the data lacks the frames, the direction or the frame count.
pub open spec fn action_of(
    line_idx: int,
    indent: Seq<char>,
    base_action: u32,
    dash_variant: Option<u32>,
    content: Seq<char>,
    name: Seq<char>,
    framerate: Option<Seq<char>>,
) -> Option<ActionModel> {
    match frame_parts(content) {
        Some(p) => {
            let w = words_of(p.0);
            if w.len() < 2 || parse_dec(w[0], u32::MAX as nat) is None {
                None
            } else {
                Some(
                    ActionModel {
                        line_idx,
                        indent,
                        base_action,
                        dash_variant,
                        name: trim_of(lower_of(name)),
                        content,
                        direction: parse_dec(w[0], u32::MAX as nat)->0 as u32,
                        frame_count: match parse_dec(w[1], u32::MAX as nat) {
                            Some(v) => v as u32,
                            None => 0,
                        },
                        first_spr: match first_spr_of(content) {
                            Some(v) => v,
                            None => 0,
                        },
                        framerate_at_parse: framerate,
                    },
                )
            }
        },
        None => None,
    }
}

fn build_action(
    line_idx: usize,
    indent: &[char],
    base_action: u32,
    dash_variant: Option<u32>,
    content: &[char],
    name: &[char],
    framerate: &Option<String>,
) -> (r: Option<Action>)
    ensures
        match r {
            Some(a) => action_of(
                line_idx as int,
                indent@,
                base_action,
                dash_variant,
                content@,
                name@,
                opt_text(*framerate),
            ) == Some(a@),
            None => action_of(
                line_idx as int,
                indent@,
                base_action,
                dash_variant,
                content@,
                name@,
                opt_text(*framerate),
            ) is None,
        },
{
    let header = match split_frame_content(content) {
        Some(p) => p.0,
        None => return None,
    };
    let w = words(header.as_slice());
    assert(rows(w@).len() == w@.len());
    if w.len() < 2 {
        return None;
    }
    assert(rows(w@)[0] == w@[0]@ && rows(w@)[1] == w@[1]@);
    let direction = match parse_u32(w[0].as_slice()) {
        Some(v) => v,
        None => return None,
    };
    let frame_count: u32 = match parse_u32(w[1].as_slice()) {
        Some(v) => v,
        None => 0,
    };
    let first_spr: u32 = match first_spr_from_content(content) {
        Some(v) => v,
        None => 0,
    };
    let lower = to_lowercase(name);
    Some(
        Action {
            line_idx,
            indent: string_of(indent),
            base_action,
            dash_variant,
            name: string_of(trim(lower.as_slice())),
            content: string_of(content),
            direction,
            frame_count,
            first_spr,
            framerate_at_parse: clone_text(framerate),
        },
    )
}

/// The actions written into a header line, for the first `k` codes.
pub open spec fn inline_actions(line_idx: int, t: Seq<char>, k: nat) -> Seq<ActionModel>
    decreases k,
{
    if k == 0 {
        seq![]
    } else {
        let before = inline_actions(line_idx, t, (k - 1) as nat);
        let code = inline_codes()[k - 1];
        match inline_scan(t, code, 0, 0) {
            Some(h) => match action_of(line_idx, seq![], code, None, h.0, h.1, None) {
                Some(a) => before.push(a),
                None => before,
            },
            None => before,
        }
    }
}

fn build_inline_actions(line_idx: usize, t: &[char]) -> (r: Vec<Action>)
    ensures
        action_models(r@) == inline_actions(line_idx as int, t@, 16),
{
    let codes = inline_code_list();
    let mut out: Vec<Action> = Vec::new();
    let mut k: usize = 0;
    assert(action_models(out@) == inline_actions(line_idx as int, t@, 0));
    while k < 16
        invariant
            k <= 16,
            codes@ == inline_codes(),
            action_models(out@) == inline_actions(line_idx as int, t@, k as nat),
        decreases 16 - k,
    {
        let code: u32 = codes[k];
        let ghost before = action_models(out@);
        match extract_inline_action_with_name(t, code) {
            Some((content, name)) => {
                let empty: Vec<char> = Vec::new();
                assert(empty@ == Seq::<char>::empty());
                match build_action(
                    line_idx,
                    empty.as_slice(),
                    code,
                    None,
                    content.as_slice(),
                    name.as_slice(),
                    &None,
                ) {
                    Some(a) => {
                        out.push(a);
                        assert(action_models(out@) == before.push(a@));
                    },
                    None => {},
                }
            },
            None => {},
        }
        k += 1;
    }
    out
}

/// The sprite that a header line opens.
pub open spec fn header_sprite(line_idx: int, line: Seq<char>, sid: u16) -> SpriteModel {
    let t = trim_start_of(line);
    SpriteModel {
        sid,
        header_line_idx: line_idx,
        header_text: line,
        img_count: match header_ext(t) {
            Some(h) => h.0,
            None => 0,
        },
        gfx_id: match header_ext(t) {
            Some(h) => h.1,
            None => None,
        },
        name: match header_ext(t) {
            Some(h) => h.2,
            None => seq![],
        },
        framerate: None,
        actions: inline_actions(line_idx, t, 16),
    }
}

fn build_header_sprite(line_idx: usize, line: &[char], sid: u16) -> (r: Sprite)
    ensures
        r@ == header_sprite(line_idx as int, line@, sid),
{
    let t = trim_start(line);
    let (img_count, gfx_id, name) = match parse_header_ext(t) {
        Some((count, gfx, name)) => (count, gfx, string_of(name.as_slice())),
        None => (0u32, None, String::new()),
    };
    Sprite {
        sid,
        header_line_idx: line_idx,
        header_text: string_of(line),
        img_count,
        gfx_id,
        name,
        framerate: None,
        actions: build_inline_actions(line_idx, t),
    }
}

/// The last sprite takes one more action, if there is one.
pub open spec fn with_action(sprites: Seq<SpriteModel>, a: Option<ActionModel>) -> Seq<
    SpriteModel,
> {
    match a {
        Some(a) => sprites.drop_last().push(
            SpriteModel { actions: sprites.last().actions.push(a), ..sprites.last() },
        ),
        None => sprites,
    }
}

/// A frame rate line: the first one is the sprite's, and each one holds for the
/// actions from there on.
pub open spec fn with_framerate(st: ParseState, content: Seq<char>) -> ParseState {
    if content.len() == 0 {
        st
    } else {
        ParseState {
            sprites: st.sprites.drop_last().push(
                SpriteModel {
                    framerate: if st.sprites.last().framerate is None {
                        Some(content)
                    } else {
                        st.sprites.last().framerate
                    },
                    ..st.sprites.last()
                },
            ),
            framerate: Some(content),
        }
    }
}

/// What one line adds.
pub open spec fn parse_line(st: ParseState, line_idx: int, line: Seq<char>) -> ParseState {
    let t = trim_start_of(line);
    let indent = line.take(line.len() - t.len());
    let content = frame_content(line);
    let name = action_name(t);
    if t.len() > 0 && t[0] == '#' {
        match sprite_id(t) {
            Some(sid) => ParseState {
                sprites: st.sprites.push(header_sprite(line_idx, line, sid)),
                framerate: None,
            },
            None => st,
        }
    } else if st.sprites.len() == 0 {
        st
    } else {
        match variant_line(t) {
            Some((base, variant)) => if variant == 1 || variant == 2 {
                ParseState {
                    sprites: with_action(
                        st.sprites,
                        action_of(
                            line_idx,
                            indent,
                            base,
                            Some(variant),
                            content,
                            name,
                            st.framerate,
                        ),
                    ),
                    framerate: st.framerate,
                }
            } else {
                st
            },
            None => match action_number(t) {
                Some(base) => {
                    let st1 = if base == 110 {
                        with_framerate(st, content)
                    } else {
                        st
                    };
                    ParseState {
                        sprites: with_action(
                            st1.sprites,
                            action_of(
                                line_idx,
                                indent,
                                base,
                                None,
                                content,
                                name,
                                st1.framerate,
                            ),
                        ),
                        framerate: st1.framerate,
                    }
                },
                None => st,
            },
        }
    }
}

/// The state behind the first `k` lines.
pub open spec fn parse_lines(lines: Seq<Seq<char>>, k: nat) -> ParseState
    decreases k,
{
    if k == 0 {
        ParseState { sprites: seq![], framerate: None }
    } else {
        parse_line(parse_lines(lines, (k - 1) as nat), k - 1, lines[k - 1])
    }
}

/// The sprite table that a text stands for.
pub open spec fn parsed(text: Seq<char>) -> SpriteFileModel {
    let lines = split_of(text, '\n');
    SpriteFileModel {
        file_header: lines[0],
        sprites: parse_lines(lines, lines.len()).sprites,
        raw_lines: lines,
        ends_with_newline: text.len() > 0 && text.last() == '\n',
    }
}

proof fn lemma_split_nonempty(s: Seq<char>, c: char)
    ensures
        split_of(s, c).len() > 0,
{
}

/// The last sprite takes the action, in place.
fn push_action(sprites: &mut Vec<Sprite>, a: Option<Action>)
    requires
        old(sprites)@.len() > 0,
    ensures
        sprite_models(final(sprites)@) == with_action(
            sprite_models(old(sprites)@),
            match a {
                Some(a) => Some(a@),
                None => None,
            },
        ),
        final(sprites)@.len() == old(sprites)@.len(),
{
    match a {
        Some(a) => {
            let ghost all = sprite_models(sprites@);
            let ghost am = a@;
            let mut last = sprites.pop().unwrap();
            let ghost lm = last@;
            assert(sprite_models(sprites@) == all.drop_last());
            assert(lm == all.last());
            last.actions.push(a);
            assert(action_models(last.actions@) == lm.actions.push(am));
            sprites.push(last);
            assert(sprite_models(sprites@) == all.drop_last().push(last@));
        },
        None => {},
    }
}

/// One line of the table.
fn read_line(
    sprites: &mut Vec<Sprite>,
    framerate: &mut Option<String>,
    line_idx: usize,
    line: &[char],
)
    ensures
        (ParseState {
            sprites: sprite_models(final(sprites)@),
            framerate: opt_text(*final(framerate)),
        }) == parse_line(
            ParseState {
                sprites: sprite_models(old(sprites)@),
                framerate: opt_text(*old(framerate)),
            },
            line_idx as int,
            line@,
        ),
{
    let ghost st = ParseState { sprites: sprite_models(sprites@), framerate: opt_text(*framerate) };
    let t = trim_start(line);
    proof {
        crate::text::lemma_trim_start(line@);
    }
    if t.len() > 0 && t[0] == '#' {
        match parse_sprite_id(t) {
            Some(sid) => {
                let sprite = build_header_sprite(line_idx, line, sid);
                let ghost sm = sprite@;
                sprites.push(sprite);
                assert(sprite_models(sprites@) == st.sprites.push(sm));
                *framerate = None;
            },
            None => {},
        }
        return ;
    }
    if sprites.len() == 0 {
        return ;
    }
    let indent = slice_subrange(line, 0, line.len() - t.len());
    assert(indent@ == line@.take(line@.len() - t@.len()));
    let content = extract_frame_content(line);
    let name = extract_action_name(t);
    match parse_variant_line(t) {
        Some((base, variant)) => {
            if variant == 1 || variant == 2 {
                let a = build_action(
                    line_idx,
                    indent,
                    base,
                    Some(variant),
                    content.as_slice(),
                    name.as_slice(),
                    framerate,
                );
                push_action(sprites, a);
            }
        },
        None => {
            match parse_action_number(t) {
                Some(base) => {
                    if base == 110 && content.len() > 0 {
                        let mut last = sprites.pop().unwrap();
                        let ghost lm = last@;
                        assert(sprite_models(sprites@) == st.sprites.drop_last());
                        assert(lm == st.sprites.last());
                        if last.framerate.is_none() {
                            last.framerate = Some(string_of(content.as_slice()));
                        }
                        *framerate = Some(string_of(content.as_slice()));
                        sprites.push(last);
                        assert(sprite_models(sprites@) == st.sprites.drop_last().push(last@));
                    }
                    let a = build_action(
                        line_idx,
                        indent,
                        base,
                        None,
                        content.as_slice(),
                        name.as_slice(),
                        framerate,
                    );
                    push_action(sprites, a);
                },
                None => {},
            }
        },
    }
}

/// Reads a sprite table.
pub fn parse(text: &str) -> (r: SpriteFile)
    ensures
        r@ == parsed(text@),
{
    let chars = chars_of(text);
    let lines = split(chars.as_slice(), '\n');
    let ghost model = split_of(text@, '\n');
    proof {
        lemma_split_nonempty(text@, '\n');
        assert(rows(lines@).len() == lines@.len());
    }
    let ends_with_newline = chars.len() > 0 && chars[chars.len() - 1] == '\n';
    assert(lines@[0]@ == rows(lines@)[0]);
    let file_header = string_of(lines[0].as_slice());
    let mut raw_lines: Vec<String> = Vec::new();
    let mut sprites: Vec<Sprite> = Vec::new();
    let mut framerate: Option<String> = None;
    let mut k: usize = 0;
    assert(sprite_models(sprites@) == Seq::<SpriteModel>::empty());
    while k < lines.len()
        invariant
            k <= lines@.len(),
            rows(lines@) == model,
            model.len() == lines@.len(),
            texts(raw_lines@) == model.take(k as int),
            (ParseState { sprites: sprite_models(sprites@), framerate: opt_text(framerate) })
                == parse_lines(model, k as nat),
        decreases lines@.len() - k,
    {
        let line = lines[k].as_slice();
        assert(line@ == model[k as int]);
        let ghost before = texts(raw_lines@);
        raw_lines.push(string_of(line));
        assert(texts(raw_lines@) == before.push(line@));
        assert(model.take(k + 1) == model.take(k as int).push(model[k as int]));
        read_line(&mut sprites, &mut framerate, k, line);
        k += 1;
    }
    assert(model.take(k as int) == model);
    SpriteFile { file_header, sprites, raw_lines, ends_with_newline }
}

} // verus!
