use std::borrow::Cow;

use launcher::i18n::{t2s_entries, tr};
use launcher::legacy_text::TextEncodingMode;

#[test]
fn passthrough_in_big5_mode() {
    let mode = TextEncodingMode::Big5;
    let r = tr("加速術", mode);
    assert!(matches!(r, Cow::Borrowed(_)));
    assert_eq!(&*r, "加速術");
}

#[test]
fn ascii_zero_alloc() {
    let mode = TextEncodingMode::Gbk;
    let r = tr("HP", mode);
    assert!(matches!(r, Cow::Borrowed(_)));
    assert_eq!(&*r, "HP");
}

#[test]
fn empty_t2s_passthrough_even_in_gbk() {
    let mode = TextEncodingMode::Gbk;
    let r = tr("喝水秒回", mode);
    assert!(matches!(r, Cow::Borrowed(_)));
    assert_eq!(&*r, "喝水秒回");
}

#[test]
fn converts_traditional_to_simplified_in_gbk() {
    let mode = TextEncodingMode::Gbk;
    let r = tr("加速術", mode);
    assert!(matches!(r, Cow::Owned(_)));
    assert_eq!(&*r, "加速术");
}

#[test]
fn converts_lhx_actual_strings() {
    let mode = TextEncodingMode::Gbk;
    assert_eq!(&*tr("輔助", mode), "辅助");
    assert_eq!(&*tr("狀態", mode), "状态");
    assert_eq!(&*tr("刪物", mode), "删物");
    assert_eq!(&*tr("變身", mode), "变身");
    assert_eq!(&*tr("時鐘", mode), "时钟");
    assert_eq!(
        &*tr("無法刪除或溶解正在使用的裝備!", mode),
        "无法删除或溶解正在使用的装备!"
    );
}

#[test]
fn passthrough_chars_not_in_table() {
    let mode = TextEncodingMode::Gbk;
    let r = tr("喝水", mode);
    assert!(matches!(r, Cow::Borrowed(_)));
}

#[test]
fn t2s_table_has_no_self_mapping() {
    for (k, v) in t2s_entries() {
        assert_ne!(k, v);
    }
}
