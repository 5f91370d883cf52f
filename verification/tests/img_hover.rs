use launcher::img_hover::hover_count_addr;
use launcher::img_hover::install::{
    blit_prologue, build_blit_jump, build_draw_call, plan_blit, plan_draw, resolve_draw,
    resolve_surface, surface_prologue, HoverError,
};
use launcher::img_hover::poll::{
    calibrate, hovered_index, is_main_window, plan_map, surface_addr, wants_scan,
};
use launcher::img_hover::tags::{
    add_hit, add_mapping, extract_attr_from_context, highlight_number, highlight_pattern, hit_mapping,
    hit_reads, next_pass, parse_img_tag_from_context, parse_wide, search_pass, source_number,
};

#[test]
fn image_tags_are_read() {
    let text = "<a><img src=\"#12\" x><img src=\"#345\" highlight=\"#678\"> tail";
    assert_eq!(parse_img_tag_from_context(text), Some((345, 678)));
    assert_eq!(
        parse_img_tag_from_context("<IMG src=\"#1\" highlight=\"#2\">"),
        Some((1, 2))
    );
    assert_eq!(parse_img_tag_from_context("src=\"#1\" highlight=\"#2\""), None);
    assert_eq!(
        parse_img_tag_from_context("<img src=\"#x\" highlight=\"#2\">"),
        None
    );
    assert_eq!(extract_attr_from_context("a src=\"#77\"", "src=\"#"), Some(77));
    assert_eq!(extract_attr_from_context("a src=\"#77", "src=\"#"), None);

    let wide: Vec<u8> = text
        .encode_utf16()
        .flat_map(|u| u.to_le_bytes())
        .collect();
    assert_eq!(parse_wide(&wide), Some((345, 678)));
}

#[test]
fn hits_give_mappings() {
    assert_eq!(highlight_number(b"678\" x"), 678);
    assert_eq!(highlight_number(b"x"), 0);
    let before = b"<img src=\"#12\"> <img src=\"#345\" ";
    assert_eq!(source_number(before), Some(345));
    assert_eq!(hit_mapping(Some(b"678\""), Some(before)), Some((345, 678)));
    assert_eq!(hit_mapping(None, Some(before)), None);
    assert_eq!(hit_mapping(Some(b"678\""), None), None);
    assert_eq!(hit_mapping(Some(b"0\""), Some(before)), None);
    let mut known = vec![(1, 2)];
    add_mapping(&mut known, 1, 3);
    assert_eq!(known, vec![(1, 2)]);
    add_mapping(&mut known, 4, 3);
    assert_eq!(known, vec![(1, 2), (4, 3)]);
    assert_eq!(highlight_pattern(false).len(), 12);
    assert_eq!(highlight_pattern(true).len(), 24);
}

#[test]
fn call_sites_are_resolved() {
    let mut site = vec![0x8B, 0x48, 0x20, 0x51, 0xB9, 1, 2, 3, 4, 0xE8, 0x10, 0, 0, 0];
    assert_eq!(
        resolve_surface(&site),
        Ok((0x0403_0201, 0x0042_63AB + 9 + 5 + 0x10))
    );
    site[9] = 0xE9;
    assert_eq!(resolve_surface(&site), Err(HoverError::SurfaceCall));
    site[0] = 0;
    assert_eq!(resolve_surface(&site), Err(HoverError::SurfaceSite));
    assert_eq!(
        resolve_draw(&[0xE8, 0xFB, 0xFF, 0xFF, 0xFF]),
        Ok(0x0049_1174)
    );
    let other = resolve_draw(&[0x90, 0, 0, 0, 0]).unwrap_err();
    assert_eq!(
        other.to_string(),
        "draw call site 0x00491174 不是 E8，而是 90"
    );
    assert_eq!(HoverError::SurfaceSite.to_string(), "GSR call site 不符");
    assert_eq!(
        HoverError::SurfaceCall.to_string(),
        "GSR call site +9 不是 E8"
    );
}

#[test]
fn prologues_have_a_length() {
    let mut d = vec![0x55, 0x8B, 0xEC, 0x83, 0xEC, 0x14, 0, 0, 0, 0, 0, 0];
    assert_eq!(surface_prologue(&d), Ok(6));
    assert_eq!(blit_prologue(&d), Some(6));
    d[3] = 0x81;
    assert_eq!(blit_prologue(&d), surface_prologue(&d).ok());
    d[3] = 0x53;
    let e = surface_prologue(&d).unwrap_err();
    assert_eq!(e, HoverError::PrologueByte(0x53));
    assert_eq!(e.to_string(), "GSR prologue byte 4: 53");
    d[0] = 0x56;
    let e = surface_prologue(&d).unwrap_err();
    assert_eq!(e, HoverError::Prologue(0x56, 0x8B, 0xEC));
    assert_eq!(e.to_string(), "GSR prologue 不符: 56 8B EC");
    assert_eq!(blit_prologue(&d), None);
}

#[test]
fn hover_code_is_placed() {
    let prologue = [0x55, 0x8B, 0xEC, 0x83, 0xEC, 0x14];
    let draw = plan_draw(0x1000_0000, 0x004B_0000, 0x009A_0000, 0x004C_0000, &prologue);
    assert!(draw
        .iter()
        .any(|w| w.addr == 0x1000_01C0 && w.bytes[..6] == prologue));
    assert!(draw
        .iter()
        .any(|w| w.addr == 0x1000_0000 && w.bytes.len() == 191));
    let blit = plan_blit(0x2000_0000, 0x1000_0000, &prologue);
    assert!(blit
        .iter()
        .any(|w| w.addr == 0x2000_0000 && w.bytes.len() == 76));
    assert_eq!(
        build_draw_call(0x1000_0000),
        vec![0xE8, 0x87, 0xEE, 0xB6, 0x0F]
    );
    assert_eq!(
        build_blit_jump(0x2000_0000, 6),
        vec![0xE9, 0x1B, 0xA3, 0xAA, 0x1F, 0x90]
    );
    assert_eq!(hover_count_addr(0x1000_0000), 0x1000_010C);
}

fn places(points: &[(i32, i32)]) -> Vec<u8> {
    points
        .iter()
        .flat_map(|p| {
            let mut b = p.0.to_le_bytes().to_vec();
            b.extend_from_slice(&p.1.to_le_bytes());
            b
        })
        .collect()
}

#[test]
fn the_cursor_finds_its_picture() {
    let pos = places(&[(100, 100), (300, 200)]);
    let shift = calibrate(&pos, 2, 500, 400, -121, -94).unwrap();
    assert_eq!(shift, (500 - (300 + 30) * 3 / 2, 400 - (200 + 40) * 3 / 2));
    assert_eq!(
        hovered_index(&pos, 2, 500, 400, shift.0, shift.1),
        Some(1)
    );
    assert_eq!(hovered_index(&pos, 2, -5000, 0, shift.0, shift.1), None);
    assert_eq!(calibrate(&pos, 0, 1, 1, 0, 0), None);
    assert_eq!(surface_addr(0x1000_0000, 3), 0x1000_016C);
    assert!(wants_scan(0, 20));
    assert!(!wants_scan(0, 21));
    assert!(!wants_scan(1, 20));
    assert!(is_main_window(5, 5, 1, 0));
    assert!(!is_main_window(5, 6, 1, 0));
    assert!(!is_main_window(5, 5, 0, 0));
    assert!(!is_main_window(5, 5, 1, 9));
}

#[test]
fn mappings_are_written() {
    let plan = plan_map(0x1000_0000, 0x2000_0000, &[(5, 6), (7, 8)]);
    let flat: Vec<(u32, Vec<u8>)> = plan.into_iter().map(|w| (w.addr, w.bytes)).collect();
    assert_eq!(
        flat,
        vec![
            (0x1000_010C, vec![2, 0, 0, 0]),
            (0x1000_0120, vec![5, 0, 0, 0]),
            (0x1000_0124, vec![6, 0, 0, 0]),
            (0x1000_0128, vec![7, 0, 0, 0]),
            (0x1000_012C, vec![8, 0, 0, 0]),
            (0x1000_0160, vec![0; 8]),
            (0x1000_0180, vec![0; 8]),
            (0x1000_01A0, vec![0; 4]),
            (0x2000_0060, vec![2, 0, 0, 0]),
            (0x2000_0080, vec![0; 16]),
        ]
    );
    let many: Vec<(u32, u32)> = (0..20).map(|i| (i, i)).collect();
    assert_eq!(plan_map(0, 0, &many)[0].bytes, vec![8, 0, 0, 0]);
}

#[test]
fn the_search_widens_until_there_is_a_hit() {
    assert_eq!(search_pass(0), Some((0x2100_0000, 0x2200_0000, false)));
    assert_eq!(search_pass(1), Some((0x1F00_0000, 0x2500_0000, false)));
    assert_eq!(search_pass(2), Some((0x0010_0000, 0x3000_0000, false)));
    assert_eq!(search_pass(3), Some((0x0010_0000, 0x3000_0000, true)));
    assert_eq!(search_pass(4), None);
    assert_eq!(next_pass(0, 0), Some(1));
    assert_eq!(next_pass(2, 0), Some(3));
    assert_eq!(next_pass(3, 0), None);
    assert_eq!(next_pass(0, 1), None);
}

#[test]
fn hits_are_read_round_and_added_once() {
    let near = hit_reads(0x1000, false);
    assert_eq!((near.at, near.len, near.before), (0x100C, 10, Some((0xFB0, 80))));
    let low = hit_reads(50, true);
    assert_eq!((low.at, low.len, low.before), (0, 600, None));
    assert_eq!(hit_reads(50, false).before, Some((0, 80)));

    let mut known = vec![];
    add_hit(&mut known, false, Some(b"678\""), Some(b"<img src=\"#345\" "));
    add_hit(&mut known, false, Some(b"9\""), Some(b"<img src=\"#345\" "));
    add_hit(&mut known, false, Some(b"0\""), Some(b"<img src=\"#3\" "));
    let wide: Vec<u8> = "<img src=\"#1\" highlight=\"#2\">"
        .bytes()
        .flat_map(|b| [b, 0])
        .collect();
    add_hit(&mut known, true, Some(&wide), None);
    add_hit(&mut known, true, None, None);
    assert_eq!(known, vec![(345, 678), (1, 2)]);
}
