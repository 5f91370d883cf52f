//! Running actions from walking ones.

use launcher::smooth_run::classify::classify;
use launcher::smooth_run::emit::emit;
use launcher::smooth_run::extract::extract;
use launcher::smooth_run::helpers::update_header_img_count;
use launcher::smooth_run::pair::pair_walks_to_runs;
use launcher::smooth_run::parse::parse;
use launcher::smooth_run::types::{RunPair, SpriteRole};

fn role_of(text: &str, sid: u16) -> SpriteRole {
    let sf = parse(text);
    let roles = classify(&sf);
    *roles.get(&sid).unwrap_or(&SpriteRole::Neither)
}

#[test]
fn pure_walk_sprite_classified_as_walk() {
    let text = "100 0 41210\n#1 32=1 wolf\n\t0.walk(1 8,8.0:2 8.1:2 8.2:2 8.3:2 8.4:2 8.5:2 8.6:2 8.7:2)\n\t4.walk(1 8,8.0:2 8.1:2 8.2:2 8.3:2 8.4:2 8.5:2 8.6:2 8.7:2)\n";
    assert_eq!(role_of(text, 1), SpriteRole::Walk);
}

#[test]
fn dash_variant_sprite_classified_as_run() {
    let text = "100 0 41210\n#7 32=7 ranger\n\t0-1.RunL(1 8,16.0:2 16.1:2 16.2:2 16.3:2 16.4:2 16.5:2 16.6:2 16.7:2)\n\t0-2.RunR(1 8,24.0:2 24.1:2 24.2:2 24.3:2 24.4:2 24.5:2 24.6:2 24.7:2)\n";
    assert_eq!(role_of(text, 7), SpriteRole::Run);
}

#[test]
fn named_runl_runr_classified_as_run() {
    let text = "100 0 41210\n#42 32=42 keina\n\t0.runL(1 8,16.0:2 16.1:2 16.2:2 16.3:2 16.4:2 16.5:2 16.6:2 16.7:2)\n\t4.runR(1 8,24.0:2 24.1:2 24.2:2 24.3:2 24.4:2 24.5:2 24.6:2 24.7:2)\n";
    assert_eq!(role_of(text, 42), SpriteRole::Run);
}

#[test]
fn structural_pair_classified_as_run_even_without_names() {
    let text = "100 0 41210\n#99 32=99 stripped\n\t32.(1 8,100.0:2 100.1:2 100.2:2 100.3:2 100.4:2 100.5:2 100.6:2 100.7:2)\n\t33.(1 8,108.0:2 108.1:2 108.2:2 108.3:2 108.4:2 108.5:2 108.6:2 108.7:2)\n";
    assert_eq!(role_of(text, 99), SpriteRole::Run);
}

#[test]
fn sprite_with_both_walk_and_run_classified_as_both() {
    let text = "100 0 41210\n#5 32=5 wolf_with_run\n\t0.walk(1 8,0.0:2 0.1:2 0.2:2 0.3:2 0.4:2 0.5:2 0.6:2 0.7:2)\n\t11.runL(1 8,16.0:2 16.1:2 16.2:2 16.3:2 16.4:2 16.5:2 16.6:2 16.7:2)\n";
    assert_eq!(role_of(text, 5), SpriteRole::Both);
}

#[test]
fn matches_legacy_test_tianm_action_driven_walk_run_polymorph_pair() {
    let input = "300 0 41210\n\
#16140 72=5373 keina walk polymorph\n\
\t0.walk(1 8,8.0:2 8.1:2 8.2:2 8.3:2 8.4:2 8.5:2 8.6:2 8.7:2)\n\
\t4.walk onehandsword(1 8,8.0:2 8.1:2 8.2:2 8.3:2 8.4:2 8.5:2 8.6:2 8.7:2)\n\
#16141 72=5373 keina run polymorph\n\
\t0.RunL(1 8,16.0:2 16.1:2 16.2:2 16.3:2 16.4:2 16.5:2 16.6:2 16.7:2)\n\
\t4.RunR(1 8,24.0:2 24.1:2 24.2:2 24.3:2 24.4:2 24.5:2 24.6:2 24.7:2)\n";
    let sf = parse(input);
    let roles = classify(&sf);
    assert_eq!(roles[&16140], SpriteRole::Walk);
    assert_eq!(roles[&16141], SpriteRole::Run);
}

fn extract_pair(text: &str, sid: u16) -> Option<RunPair> {
    let sf = parse(text);
    let roles = classify(&sf);
    let pairs = extract(&sf, &roles);
    pairs.get(&sid).cloned()
}

#[test]
fn extract_dash_variant() {
    let text = "100 0 41210\n#7 32=7 ranger\n\t0-1.RunL(1 8,16.0:2 16.1:2 16.2:2 16.3:2 16.4:2 16.5:2 16.6:2 16.7:2)\n\t0-2.RunR(1 8,24.0:2 24.1:2 24.2:2 24.3:2 24.4:2 24.5:2 24.6:2 24.7:2)\n";
    let p = extract_pair(text, 7).expect("dash variant 應命中");
    assert!(p.runl.as_deref().unwrap().starts_with("1 8,16.0:2"));
    assert!(p.runr.as_deref().unwrap().starts_with("1 8,24.0:2"));
}

#[test]
fn extract_named_runl_runr() {
    let text = "100 0 41210\n#42 32=42 keina\n\t0.runL(1 8,16.0:2 16.1:2 16.2:2 16.3:2 16.4:2 16.5:2 16.6:2 16.7:2)\n\t4.runR(1 8,24.0:2 24.1:2 24.2:2 24.3:2 24.4:2 24.5:2 24.6:2 24.7:2)\n";
    let p = extract_pair(text, 42).expect("named 應命中");
    assert!(p.runl.as_deref().unwrap().starts_with("1 8,16.0:2"));
    assert!(p.runr.as_deref().unwrap().starts_with("1 8,24.0:2"));
}

#[test]
fn extract_32_33_structural_strict_plus_8() {
    let text = "100 0 41210\n#99 32=99 stripped\n\t32.(1 8,100.0:2 100.1:2 100.2:2 100.3:2 100.4:2 100.5:2 100.6:2 100.7:2)\n\t33.(1 8,108.0:2 108.1:2 108.2:2 108.3:2 108.4:2 108.5:2 108.6:2 108.7:2)\n";
    let p = extract_pair(text, 99).expect("Path C 應命中");
    assert!(p.runl.as_deref().unwrap().starts_with("1 8,100.0:2"));
    assert!(p.runr.as_deref().unwrap().starts_with("1 8,108.0:2"));
}

#[test]
fn extract_0_4_template_a_abs_diff() {
    let text = "100 0 41210\n#88 32=88 reverse\n\t0.(1 8,8.0:2 8.1:2 8.2:2 8.3:2 8.4:2 8.5:2 8.6:2 8.7:2)\n\t4.(1 8,0.0:2 0.1:2 0.2:2 0.3:2 0.4:2 0.5:2 0.6:2 0.7:2)\n";
    let p = extract_pair(text, 88).expect("模板 A 應命中");
    assert!(p.runl.as_deref().unwrap().starts_with("1 8,8.0:2"));
    assert!(p.runr.as_deref().unwrap().starts_with("1 8,0.0:2"));
}

#[test]
fn extract_returns_none_for_walk_only_sprite() {
    let text = "100 0 41210\n#1 32=1 wolf\n\t0.walk(1 4,0.0:2 0.1:2 0.2:2 0.3:2)\n";
    assert!(extract_pair(text, 1).is_none());
}

#[test]
fn extract_uses_weapon_suffixed_runr_when_no_clean_alternative() {
    let text = "100 0 41210\n#200 32=999 LMS knight male_run\n\t0.runL(1 8,344.0:1 344.1:1 344.2:1 344.3:1 344.4:1 344.5:1 344.6:1 344.7:1)\n\t4.runR onehandsword(1 8,352.0:1 352.1:1 352.2:1 352.3:1 352.4:1 352.5:1 352.6:1 352.7:1)\n";
    let p = extract_pair(text, 200).expect("應命中(weapon-suffixed runR 是唯一 RunR)");
    assert!(p.runl.as_deref().unwrap().starts_with("1 8,344.0:1"));
    assert!(p.runr.as_deref().unwrap().starts_with("1 8,352.0:1"));
}

#[test]
fn pair_via_gfx_id_group() {
    let text = "100 0 41210\n#100 32=777 wolf walk\n\t0.walk(1 8,0.0:2 0.1:2 0.2:2 0.3:2 0.4:2 0.5:2 0.6:2 0.7:2)\n#200 40=777 wolf run\n\t0.runL(1 8,8.0:2 8.1:2 8.2:2 8.3:2 8.4:2 8.5:2 8.6:2 8.7:2)\n\t4.runR(1 8,16.0:2 16.1:2 16.2:2 16.3:2 16.4:2 16.5:2 16.6:2 16.7:2)\n";
    let sf = parse(text);
    let roles = classify(&sf);
    let runs = extract(&sf, &roles);
    let pairs = pair_walks_to_runs(&sf, &roles, &runs);
    let p = pairs.get(&100).expect("walk #100 應拿到 RunPair");
    assert!(p.runl.as_deref().unwrap().starts_with("1 8,8.0:2"));
    assert!(p.runr.as_deref().unwrap().starts_with("1 8,16.0:2"));
}

#[test]
fn parse_empty_input_returns_empty_sprite_file() {
    let result = parse("");
    assert_eq!(result.file_header, "");
    assert!(result.sprites.is_empty());
    assert!(result.raw_lines.is_empty() || result.raw_lines == vec![""]);
}

#[test]
fn parse_single_sprite_with_one_walk_action() {
    let text = "100 0 41210\n#42 32=999 wolf\n\t0.walk(1 8,8.0:2 8.1:2 8.2:2 8.3:2 8.4:2 8.5:2 8.6:2 8.7:2)\n";
    let result = parse(text);
    assert_eq!(result.file_header, "100 0 41210");
    assert_eq!(result.sprites.len(), 1);
    let s = &result.sprites[0];
    assert_eq!(s.sid, 42);
    assert_eq!(s.gfx_id, Some(999));
    assert_eq!(s.img_count, 32);
    assert_eq!(s.name, "wolf");
    assert_eq!(s.actions.len(), 1);
    let a = &s.actions[0];
    assert_eq!(a.base_action, 0);
    assert_eq!(a.dash_variant, None);
    assert_eq!(a.name, "walk");
    assert_eq!(a.direction, 1);
    assert_eq!(a.frame_count, 8);
    assert_eq!(a.first_spr, 8);
}

#[test]
fn parse_dash_variant_recognizes_runl_runr() {
    let text = "100 0 41210\n#7 32=777 ranger\n\t0-1.RunL(1 8,16.0:2 16.1:2 16.2:2 16.3:2 16.4:2 16.5:2 16.6:2 16.7:2)\n\t0-2.RunR(1 8,24.0:2 24.1:2 24.2:2 24.3:2 24.4:2 24.5:2 24.6:2 24.7:2)\n";
    let result = parse(text);
    let s = &result.sprites[0];
    assert_eq!(s.actions.len(), 2);
    assert_eq!(s.actions[0].base_action, 0);
    assert_eq!(s.actions[0].dash_variant, Some(1));
    assert_eq!(s.actions[0].name, "runl");
    assert_eq!(s.actions[1].dash_variant, Some(2));
    assert_eq!(s.actions[1].name, "runr");
}

#[test]
fn parse_extracts_framerate_from_action_110() {
    let text = "100 0 41210\n#9 32=888 wizard\n\t0.walk(1 8,8.0:2 8.1:2 8.2:2 8.3:2 8.4:2 8.5:2 8.6:2 8.7:2)\n\t110.framerate(1 8,1 1 1 1 1 1 1 1)\n";
    let result = parse(text);
    let s = &result.sprites[0];
    assert_eq!(s.framerate.as_deref(), Some("1 8,1 1 1 1 1 1 1 1"));
}

#[test]
fn parse_preserves_raw_lines_for_emit_round_trip() {
    let text = "300 0 41210\n#1 32=1 a\n\t0.walk(1 4,0.0:2 0.1:2 0.2:2 0.3:2)\n# comment line(non-header)\n";
    let result = parse(text);
    assert_eq!(result.raw_lines.len(), 5);
    assert_eq!(result.raw_lines[0], "300 0 41210");
    assert_eq!(result.raw_lines[3], "# comment line(non-header)");
    assert_eq!(result.raw_lines[4], "");
}


#[test]
fn emit_injects_slot_98_99_for_walk_with_run_pair() {
    let text = "100 0 41210\n#100 32=777 wolf walk\n\t0.walk(1 8,0.0:2 0.1:2 0.2:2 0.3:2 0.4:2 0.5:2 0.6:2 0.7:2)\n#200 40=777 wolf run\n\t0.runL(1 8,8.0:2 8.1:2 8.2:2 8.3:2 8.4:2 8.5:2 8.6:2 8.7:2)\n\t4.runR(1 8,16.0:2 16.1:2 16.2:2 16.3:2 16.4:2 16.5:2 16.6:2 16.7:2)\n";
    let sf = parse(text);
    let roles = classify(&sf);
    let runs = extract(&sf, &roles);
    let pairs = pair_walks_to_runs(&sf, &roles, &runs);
    let (output, _) = emit(&sf, &pairs);
    assert!(output.contains("98.walk(1 8,8.0:2"));
    assert!(output.contains("99.walk(1 8,16.0:2"));
}


#[test]
fn a_header_that_is_the_last_line_gets_the_slots() {
    let sf = parse("H\n#1 8=5 w 0.walk(1 8,0.0:2)\n#2 40=5 r\n\t0.runL(1 8,8.0:2)\n\t4.runR(1 8,16.0:2)\n");
    let mut pairs = std::collections::HashMap::new();
    pairs.insert(
        1,
        RunPair {
            runl: Some("1 8,8.0:2".to_string()),
            runr: Some("1 8,16.0:2".to_string()),
            framerate: None,
            source_img_count: 40,
        },
    );
    assert_eq!(
        emit(&sf, &pairs).0,
        "H\n#1 40=5 w 0.walk(1 8,0.0:2)\n\t98.walk(1 8,8.0:2)\n\t99.walk(1 8,16.0:2)\n#2 40=5 r\n\t0.runL(1 8,8.0:2)\n\t4.runR(1 8,16.0:2)\n"
    );
}

#[test]
fn any_two_actions_can_be_a_run_pair() {
    let sword = "H\n#1 8 a\n\t11.walk sword(1 8,0.0:2)\n\t20.walk bow(1 8,8.0:2)\n";
    assert_eq!(role_of(sword, 1), SpriteRole::Both);
    let stand = "H\n#1 8 a\n\t5.x(1 8,16.0:2)\n\t3.y(1 8,8.0:2)\n";
    assert_eq!(role_of(stand, 1), SpriteRole::Run);
    let near = "H\n#1 8 a\n\t11.walk sword(1 8,0.0:2)\n\t20.walk bow(1 8,7.0:2)\n";
    assert_eq!(role_of(near, 1), SpriteRole::Walk);
    let turned = "H\n#1 8 a\n\t11.walk sword(1 8,0.0:2)\n\t20.walk bow(0 8,8.0:2)\n";
    assert_eq!(role_of(turned, 1), SpriteRole::Walk);
    let same = "H\n#1 8 a\n\t11.walk sword(1 8,0.0:2)\n\t11.walk bow(1 8,8.0:2)\n";
    assert_eq!(role_of(same, 1), SpriteRole::Walk);
}

#[test]
fn variants_without_frames_are_left_out_too() {
    let text = "H\n#1 8 a\n\t0.walk(1 8,0.0:2)\n\t0-1.RunL(broken\n\t0-2.RunR()\n\t0-3.other(\n\t5.x(1 2,0.0:2)";
    let sf = parse(text);
    assert_eq!(
        emit(&sf, &std::collections::HashMap::new()).0,
        "H\n#1 8 a\n\t0.walk(1 8,0.0:2)\n\t0-3.other(\n\t5.x(1 2,0.0:2)"
    );
}

#[test]
fn only_the_count_behind_the_sprite_number_changes() {
    let updated = |line: &str, old: u32, new: u32| -> String {
        let chars: Vec<char> = line.chars().collect();
        update_header_img_count(&chars, old, new).into_iter().collect()
    };
    assert_eq!(
        updated("#61 320=3213 knight", 320, 360),
        "#61 360=3213 knight"
    );
    assert_eq!(updated("#32 32=32 a", 32, 40), "#32 40=32 a");
    assert_eq!(updated("  #32  032=32 a", 32, 40), "  #32  040=32 a");
    assert_eq!(updated("#61 320=3213 knight", 321, 360), "#61 320=3213 knight");
    assert_eq!(updated("#1 w 0.walk(1 8,0.0:2)", 0, 40), "#1 w 0.walk(1 8,0.0:2)");
    assert_eq!(updated("#10", 0, 40), "#10");
    assert_eq!(updated("#1 0=5 w", 0, 40), "#1 40=5 w");
}
