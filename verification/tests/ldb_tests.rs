use colorify::ldb::{group_by_section, initial_cells, overlay_placements, section_palette, SectionCell};

#[test]
fn placements_are_grouped_by_sub_chunk_in_key_order() {
    let blocks = vec![
        (17, -1, 3, "a".to_string()),
        (1, 2, 3, "b".to_string()),
        (18, 0, 3, "c".to_string()),
        (2, 3, 4, "d".to_string()),
    ];
    let groups = group_by_section([0, 0, 0], &blocks).unwrap();
    let keys: Vec<(i32, i32, i8)> = groups.iter().map(|g| (g.cx, g.cz, g.sy)).collect();
    assert_eq!(keys, vec![(0, 0, 0), (1, 0, -1), (1, 0, 0)]);
    assert_eq!(groups[0].placements, vec![(1, 2, 3, "b".to_string()), (2, 3, 4, "d".to_string())]);
    assert_eq!(groups[1].placements, vec![(1, 15, 3, "a".to_string())]);
    assert_eq!(groups[2].placements, vec![(2, 0, 3, "c".to_string())]);
}

#[test]
fn origin_moves_the_placements() {
    let blocks = vec![(0, 0, 0, "a".to_string())];
    let groups = group_by_section([-1, 16, -17], &blocks).unwrap();
    assert_eq!((groups[0].cx, groups[0].cz, groups[0].sy), (-1, -2, 1));
    assert_eq!(groups[0].placements, vec![(15, 0, 15, "a".to_string())]);
}

#[test]
fn sections_outside_i8_are_refused() {
    let blocks = vec![(0, 5, 0, "a".to_string()), (0, 2048, 0, "b".to_string()), (0, -2049, 0, "c".to_string())];
    assert_eq!(group_by_section([0, 0, 0], &blocks).err(), Some("Y 越界: 2048".to_string()));
    let low = vec![(0, -2049, 0, "c".to_string())];
    assert_eq!(group_by_section([0, 0, 0], &low).err(), Some("Y 越界: -2049".to_string()));
    let edge = vec![(0, -2048, 0, "c".to_string()), (0, 2047, 0, "d".to_string())];
    assert!(group_by_section([0, 0, 0], &edge).is_ok());
}

#[test]
fn no_placements_no_groups() {
    assert!(group_by_section([0, 0, 0], &[]).unwrap().is_empty());
}

#[test]
fn initial_cells_from_storage() {
    let air = initial_cells(None);
    assert_eq!(air.len(), 4096);
    assert!(air.iter().all(|c| *c == SectionCell::Air));
    let stored: Vec<u16> = (0..4096u16).map(|i| i % 7).collect();
    let cells = initial_cells(Some(&stored));
    assert_eq!(cells[10], SectionCell::Stored(3));
}

#[test]
fn later_placements_win() {
    let mut cells = initial_cells(None);
    let placements = vec![(1u8, 2u8, 3u8, "x".to_string()), (1, 2, 3, "y".to_string()), (0, 0, 0, "z".to_string())];
    overlay_placements(&mut cells, &placements);
    assert_eq!(cells[306], SectionCell::Placed(1));
    assert_eq!(cells[0], SectionCell::Placed(2));
    assert_eq!(cells[1], SectionCell::Air);
}

#[test]
fn palette_entries_in_first_occurrence_order() {
    let mut keys = vec!["air".to_string(); 4096];
    keys[306] = "x".to_string();
    keys[4095] = "y".to_string();
    let p = section_palette(&keys);
    assert_eq!(p.firsts, vec![0, 306, 4095]);
    assert_eq!(p.indices.len(), 4096);
    assert_eq!(p.indices[0], 1);
    assert_eq!(p.indices[291], 2);
    assert_eq!(p.indices[4095], 3);
    assert_eq!(p.indices.iter().filter(|&&i| i == 1).count(), 4094);
}

#[test]
fn world_write_needs_blocks() {
    assert_eq!(colorify::ldb::check_blocks_given(0), Err("没有生成任何方块".to_string()));
    assert_eq!(colorify::ldb::check_blocks_given(3), Ok(()));
}
