//! Rows for the sprite actions.

use launcher::spr_action_sql::{
    generate_spr_action_sql, legacy_tokens, parse_action_groups, parse_u32_prefix,
};

#[test]
fn parses_numeric_prefix_like_strtoul() {
    assert_eq!(parse_u32_prefix("2<478"), Some(2));
    assert_eq!(parse_u32_prefix("110"), Some(110));
    assert_eq!(parse_u32_prefix("abc"), None);
    assert_eq!(parse_u32_prefix(""), None);
}

#[test]
fn sanitizes_legacy_action_text_to_numeric_tokens() {
    let tokens = legacy_tokens("header ignored\n#100 80 name\n0.walk(1 2,8.0:3 8.1:4<478)");
    assert_eq!(
        tokens,
        vec!["#100", "80", "0", "1", "2", "8", "0", "3", "8", "1", "4<478"]
    );
}

#[test]
fn sanitizes_non_ascii_legacy_labels_to_spaces() {
    let tokens = legacy_tokens("header ignored\n#100 80 \u{6e2c}\u{8a66}\n0.walk(1 2,8.0:3)");
    assert_eq!(tokens, vec!["#100", "80", "0", "1", "2", "8", "0", "3"]);
}

#[test]
fn parses_commands_under_hash_groups() {
    let groups = parse_action_groups(
        "#100 80 name\n0.walk(1 2,8.0:3 8.1:4)\n#200 90 name\n4.attack(1 1,9.0:5)",
    )
    .unwrap();

    assert_eq!(groups.len(), 2);
    assert_eq!(groups[0].spr_id, 100);
    assert_eq!(
        groups[0].commands[0],
        vec!["0", "1", "2", "8", "0", "3", "8", "1", "4"]
    );
    assert_eq!(groups[1].spr_id, 200);
    assert_eq!(groups[1].commands[0], vec!["4", "1", "1", "9", "0", "5"]);
}

#[test]
fn rejects_input_without_hash_group() {
    let err = generate_spr_action_sql("0.walk(1 1,8.0:2)").unwrap_err();
    assert!(err.to_string().contains("no valid #spr_id"));
}

#[test]
fn generates_basic_insert_for_supported_action() {
    let out = generate_spr_action_sql("#100 80 name\n0.walk(1 2,8.0:3 8.1:4)").unwrap();
    assert_eq!(out.row_count, 1);
    assert_eq!(
        out.sql,
        "INSERT INTO `spr_action` VALUES ('100', '0', '7', '24');\n"
    );
}

#[test]
fn command_110_updates_framerate_for_following_rows() {
    let out = generate_spr_action_sql("#100 80 name\n110.framerate(30)\n4.attack(1 1,9.0:5)")
        .unwrap();
    assert_eq!(
        out.sql,
        "INSERT INTO `spr_action` VALUES ('100', '4', '5', '30');\n"
    );
}

#[test]
fn skips_ascii_label_tokens_after_header_metadata() {
    let out = generate_spr_action_sql(
        "#18840 64 [弓手黃金]\n110.framerate(25)\n0.walk(1 4,0.0:4 0.1:4 0.2:4 0.3:4)",
    )
    .unwrap();

    assert_eq!(
        out.sql,
        "INSERT INTO `spr_action` VALUES ('18840', '0', '16', '25');\n"
    );
}

#[test]
fn unsupported_action_code_does_not_emit_sql() {
    let out = generate_spr_action_sql("#100 80 name\n100.shadow(1 1,8.0:2)").unwrap();
    assert_eq!(out.row_count, 0);
    assert!(out.sql.is_empty());
}

#[test]
fn reference_copies_previous_matching_action_record() {
    let out = generate_spr_action_sql(
        "#100 80 name\n4.attack(1 1,9.0:5)\n#200 80 name\n4=100 copied_attack",
    )
    .unwrap();

    assert_eq!(
        out.sql,
        "INSERT INTO `spr_action` VALUES ('100', '4', '5', '24');\n\
         INSERT INTO `spr_action` VALUES ('200', '4', '5', '24');\n"
    );
}

#[test]
fn unresolved_reference_is_skipped() {
    let out = generate_spr_action_sql("#200 80 name\n4=100 copied_attack").unwrap();
    assert_eq!(out.row_count, 0);
    assert!(out.sql.is_empty());
}

#[test]
fn malformed_reference_is_skipped_without_direct_action_fallback() {
    let out = generate_spr_action_sql("#200 80 name\n4=abc copied_attack").unwrap();
    assert_eq!(out.row_count, 0);
    assert!(out.sql.is_empty());
}

#[test]
fn header_label_digits_are_ignored_instead_of_becoming_commands() {
    let out = generate_spr_action_sql(
        "#18840 1 Skill_Elf_Pollute_Water_2026\n102.type(0)\n#18841 1 next\n4.attack(1 1,9.0:5)",
    )
    .unwrap();

    assert_eq!(
        out.sql,
        "INSERT INTO `spr_action` VALUES ('18841', '4', '5', '24');\n"
    );
}

#[test]
fn unsupported_short_metadata_commands_do_not_abort_generation() {
    let out = generate_spr_action_sql("#18840 1 name\n102\n#18841 1 next\n4.attack(1 1,9.0:5)")
        .unwrap();

    assert_eq!(
        out.sql,
        "INSERT INTO `spr_action` VALUES ('18841', '4', '5', '24');\n"
    );
}
