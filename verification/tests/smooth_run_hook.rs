use launcher::smooth_run_hook::build_shellcode;

#[test]
fn shellcode_flips_foot_only_on_anim_frame_wrap() {
    let sc = build_shellcode(0x1234_0000);

    assert!(
        sc.windows(4).any(|w| w == [0x0F, 0xB6, 0x41, 0x17]),
        "RunL/RunR selection should observe entity+0x17 anim_frame"
    );
    assert!(
        !sc.windows(7)
            .any(|w| w == [0x8B, 0x4D, 0x0C, 0x85, 0xC9, 0x59, 0x75]),
        "RunL/RunR selection must not hard-switch directly from action_state"
    );
    assert!(
        sc.windows(3).any(|w| w == [0x3A, 0x47, 0x02]),
        "RunL/RunR selection should compare current anim_frame with stored previous frame"
    );
    assert!(
        sc.windows(4).any(|w| w == [0x80, 0x77, 0x03, 0x01]),
        "RunL/RunR selection should flip the stored foot only at an animation boundary"
    );
    assert!(
        sc.windows(4).any(|w| w == [0x83, 0xF9, 0x58, 0x74]),
        "RunL/RunR selection should cover TianM action 88"
    );
    assert!(
        sc.windows(4).any(|w| w == [0x83, 0xF9, 0x77, 0x74]),
        "RunL/RunR selection should cover TianM action 119"
    );
}
