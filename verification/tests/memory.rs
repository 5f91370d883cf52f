use launcher::code::{
    build_jump, build_padded_jump, emit_call, emit_jump, read16, read32, read_target,
};
use launcher::memory::{exact_pattern, first_place, fits, push_places, Scanner};

#[test]
fn jumps_land() {
    assert_eq!(
        build_jump(0x0040_1000, 0x0040_2000),
        vec![0xE9, 0xFB, 0x0F, 0, 0]
    );
    assert_eq!(
        build_jump(0x0040_2000, 0x0040_1000),
        vec![0xE9, 0xFB, 0xEF, 0xFF, 0xFF]
    );
    for (from, to) in [(0u32, 0xFFFF_FFFFu32), (0xFFFF_FFF0, 3), (7, 7)] {
        assert_eq!(read_target(from, &build_jump(from, to)), to);
    }
    assert_eq!(
        build_padded_jump(0x0040_1000, 0x0040_2000, 2),
        vec![0xE9, 0xFB, 0x0F, 0, 0, 0x90, 0x90]
    );
    let mut code = vec![0x60];
    emit_call(&mut code, 0x1000, 0x2000);
    assert_eq!(code, vec![0x60, 0xE8, 0xFA, 0x0F, 0, 0]);
    emit_jump(&mut code, 0x1000, 0x1006);
    assert_eq!(&code[6..], &[0xE9, 0xFB, 0xFF, 0xFF, 0xFF]);
}

#[test]
fn numbers_in_memory() {
    let b = [1, 2, 3, 4, 5];
    assert_eq!(read32(&b, 1), 0x0504_0302);
    assert_eq!(read16(&b, 3), 0x0504);
}

#[test]
fn patterns_match_with_holes() {
    let data = [9, 1, 5, 3, 1, 6, 3, 0];
    let holes = [Some(1), None, Some(3)];
    assert!(fits(&data, &holes, 1));
    assert!(!fits(&data, &holes, 2));
    assert_eq!(first_place(&data, &holes), Some(1));
    let mut all = vec![];
    push_places(&mut all, 0x100, &data, &holes);
    assert_eq!(all, vec![0x101, 0x104]);
    assert_eq!(first_place(&data, &exact_pattern(&[6, 3])), Some(5));
    assert_eq!(first_place(&data, &exact_pattern(&[3, 3])), None);
    assert_eq!(first_place(&data, &exact_pattern(&[3, 0])), Some(6));
    assert_eq!(first_place(&data, &exact_pattern(&data)), Some(0));
    assert_eq!(first_place(&[], &[]), None);
}

#[test]
fn a_place_at_the_end_of_the_range_is_found() {
    let pattern = exact_pattern(&[3, 4]);
    let mut scan = Scanner::new(0x1000, 0x1004);
    assert_eq!(scan.request(pattern.len()), Some((0x1000, 4)));
    assert_eq!(scan.step(Some(&[1, 2, 3, 4]), &pattern), Some(0x1002));
    assert_eq!(scan.request(pattern.len()), None);
    let mut scan = Scanner::new(0x1000, 0x1004);
    let mut hits = vec![];
    scan.step_all(Some(&[4, 4, 4, 4]), &exact_pattern(&[4]), &mut hits);
    assert_eq!(hits, vec![0x1000, 0x1001, 0x1002, 0x1003]);
}

#[test]
fn runs_cover_what_lies_across_them() {
    let mut memory = vec![0u8; 0x20010];
    memory[0xFFFF] = 0xAA;
    memory[0x10000] = 0xBB;
    memory[0x20005] = 0xAA;
    memory[0x20006] = 0xBB;
    let pattern = exact_pattern(&[0xAA, 0xBB]);

    let mut scan = Scanner::new(0, 0x20010);
    let mut hits = vec![];
    while let Some((at, len)) = scan.request(pattern.len()) {
        let end = (at as usize + len).min(memory.len());
        scan.step_all(Some(&memory[at as usize..end]), &pattern, &mut hits);
    }
    assert_eq!(hits, vec![0xFFFF, 0x20005]);

    let mut scan = Scanner::new(0, 0x20010);
    let mut found = None;
    while let Some((at, len)) = scan.request(pattern.len()) {
        let end = (at as usize + len).min(memory.len());
        found = scan.step(Some(&memory[at as usize..end]), &pattern);
        if found.is_some() {
            break;
        }
    }
    assert_eq!(found, Some(0xFFFF));
}
