use launcher::lineage_cfg::{
    display_value, set_fullscreen, set_window_mode, CfgError, HEADER_LEN, KEY_FULLSCREEN,
    KEY_WINDOW_MODE, STRING_KEY_THRESHOLD, TLV_TERMINATOR,
};

fn cfg_bytes(fullscreen: u8, window_mode: u32) -> Vec<u8> {
    let mut data = vec![0u8; HEADER_LEN];
    data.extend_from_slice(&KEY_FULLSCREEN.to_le_bytes());
    data.extend_from_slice(&1u32.to_le_bytes());
    data.push(fullscreen);
    data.extend_from_slice(&KEY_WINDOW_MODE.to_le_bytes());
    data.extend_from_slice(&4u32.to_le_bytes());
    data.extend_from_slice(&window_mode.to_le_bytes());
    data.extend_from_slice(&TLV_TERMINATOR.to_le_bytes());
    data
}

fn cfg_value(data: &[u8], target_key: u32) -> Option<Vec<u8>> {
    let mut off = HEADER_LEN;
    while off + 4 <= data.len() {
        let key = u32::from_le_bytes(data[off..off + 4].try_into().unwrap());
        if key == TLV_TERMINATOR {
            return None;
        }
        if key >= STRING_KEY_THRESHOLD {
            let rest = &data[off + 4..];
            let nul = rest.iter().position(|&b| b == 0)?;
            off += 4 + nul + 1;
            continue;
        }
        let sz = u32::from_le_bytes(data[off + 4..off + 8].try_into().unwrap()) as usize;
        let value_off = off + 8;
        if key == target_key {
            return Some(data[value_off..value_off + sz].to_vec());
        }
        off += 8 + sz;
    }
    None
}

#[test]
fn set_fullscreen_updates_cfg_byte() {
    let before = cfg_bytes(1, 5);

    let data = set_fullscreen(Some(&before), 0).unwrap().unwrap();

    assert_eq!(data[HEADER_LEN + 8], 0);
}

#[test]
fn set_window_mode_updates_cfg_dword() {
    let before = cfg_bytes(0, 5);

    let data = set_window_mode(Some(&before), 7).unwrap().unwrap();

    let mode_off = HEADER_LEN + 4 + 4 + 1 + 4 + 4;
    assert_eq!(
        u32::from_le_bytes(data[mode_off..mode_off + 4].try_into().unwrap()),
        7
    );
}

#[test]
fn set_fullscreen_creates_missing_cfg_for_windowed_launch() {
    let data = set_fullscreen(None, 0).unwrap().unwrap();

    assert_eq!(&data[..HEADER_LEN], b"lineage configuration file\x1A\0");
    assert_eq!(cfg_value(&data, KEY_FULLSCREEN), Some(vec![0]));
    assert_eq!(
        cfg_value(&data, KEY_WINDOW_MODE),
        Some(5u32.to_le_bytes().to_vec())
    );
}

#[test]
fn other_settings_keep_their_bytes() {
    let mut before = vec![0u8; HEADER_LEN];
    before.extend_from_slice(&0x2711u32.to_le_bytes());
    before.extend_from_slice(b"text\0");
    before.extend_from_slice(&3u32.to_le_bytes());
    before.extend_from_slice(&2u32.to_le_bytes());
    before.extend_from_slice(&[9, 8]);
    before.extend_from_slice(&cfg_bytes(1, 6)[HEADER_LEN..]);
    let after = set_window_mode(Some(&before), 4).unwrap().unwrap();
    assert_eq!(cfg_value(&after, 3), Some(vec![9, 8]));
    assert_eq!(cfg_value(&after, KEY_FULLSCREEN), Some(vec![1]));
    assert_eq!(cfg_value(&after, KEY_WINDOW_MODE), Some(vec![4, 0, 0, 0]));
    assert_eq!(after.len(), before.len());
    assert_eq!(&after[..HEADER_LEN + 9], &before[..HEADER_LEN + 9]);
}

#[test]
fn a_value_that_is_there_is_not_written_again() {
    let before = cfg_bytes(1, 5);
    assert_eq!(set_fullscreen(Some(&before), 1), Ok(None));
    assert_eq!(set_window_mode(Some(&before), 5), Ok(None));
}

#[test]
fn a_missing_key_leaves_the_file() {
    let mut before = vec![0u8; HEADER_LEN];
    before.extend_from_slice(&TLV_TERMINATOR.to_le_bytes());
    assert_eq!(set_fullscreen(Some(&before), 1), Ok(None));
}

#[test]
fn a_new_file_takes_the_window_mode() {
    let data = set_window_mode(None, 7).unwrap().unwrap();
    assert_eq!(cfg_value(&data, KEY_FULLSCREEN), Some(vec![0]));
    assert_eq!(cfg_value(&data, KEY_WINDOW_MODE), Some(vec![7, 0, 0, 0]));
    assert_eq!(cfg_value(&data, 0x1B), Some(vec![7, 0, 0, 0]));
    assert_eq!(data.len(), HEADER_LEN + 9 + 12 + 12 + 4);
}

#[test]
fn damaged_cfg_files_are_refused() {
    assert_eq!(set_window_mode(None, 3), Err(CfgError::InvalidMode(3)));
    assert_eq!(set_window_mode(None, 8), Err(CfgError::InvalidMode(8)));
    assert_eq!(
        CfgError::InvalidMode(8).to_string(),
        "無效的 WindowMode 8(只接受 4..=7)"
    );

    let short = vec![0u8; HEADER_LEN + 3];
    assert_eq!(set_fullscreen(Some(&short), 0), Err(CfgError::TooShort(31)));
    assert_eq!(
        CfgError::TooShort(31).to_string(),
        "lineage.cfg 太短(只有 31 bytes)"
    );

    let mut open = vec![0u8; HEADER_LEN];
    open.extend_from_slice(&0x2710u32.to_le_bytes());
    open.extend_from_slice(b"abc");
    assert_eq!(set_fullscreen(Some(&open), 0), Err(CfgError::OpenText));
    assert_eq!(CfgError::OpenText.to_string(), "cfg 字串值缺結尾 0");

    let mut cut = vec![0u8; HEADER_LEN];
    cut.extend_from_slice(&KEY_FULLSCREEN.to_le_bytes());
    cut.extend_from_slice(&[1, 0]);
    assert_eq!(
        set_fullscreen(Some(&cut), 0),
        Err(CfgError::Truncated(HEADER_LEN))
    );
    assert_eq!(
        CfgError::Truncated(HEADER_LEN).to_string(),
        "cfg 截斷在 size 欄位 @ 0x1C"
    );

    let mut long = vec![0u8; HEADER_LEN];
    long.extend_from_slice(&0x15u32.to_le_bytes());
    long.extend_from_slice(&1025u32.to_le_bytes());
    long.extend_from_slice(&vec![0u8; 2000]);
    assert_eq!(
        set_fullscreen(Some(&long), 0),
        Err(CfgError::Corrupt(HEADER_LEN, 0x15, 1025))
    );
    assert_eq!(
        CfgError::Corrupt(HEADER_LEN, 0x15, 1025).to_string(),
        "cfg 內容毀損 @ 0x1C(key=0x15 sz=1025)"
    );

    let mut wide = vec![0u8; HEADER_LEN];
    wide.extend_from_slice(&KEY_FULLSCREEN.to_le_bytes());
    wide.extend_from_slice(&2u32.to_le_bytes());
    wide.extend_from_slice(&[1, 0]);
    wide.extend_from_slice(&TLV_TERMINATOR.to_le_bytes());
    assert_eq!(
        set_fullscreen(Some(&wide), 0),
        Err(CfgError::SizeMismatch(KEY_FULLSCREEN, 1, 2))
    );
    assert_eq!(
        CfgError::SizeMismatch(KEY_FULLSCREEN, 1, 2).to_string(),
        "FullScreen cfg size 不符(預期 1 但實際 2)"
    );
}

#[test]
fn cfg_values_in_words() {
    assert_eq!(display_value(&[7]), "7");
    assert_eq!(display_value(&[7, 1, 0, 0]), "263");
    assert_eq!(display_value(&[7, 0xAB]), "07 AB");
    assert_eq!(display_value(&[]), "");
}
