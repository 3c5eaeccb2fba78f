use colorify::generator::{export_blocks_3d, generate, GenParams};
use colorify::ditherer::PaletteColorInput;
use colorify::nbt::{McStructure, NbtWriter};

fn name(out: &mut Vec<u8>, s: &str) {
    out.extend_from_slice(&(s.len() as u16).to_le_bytes());
    out.extend_from_slice(s.as_bytes());
}

fn put_int(out: &mut Vec<u8>, v: i32) {
    out.extend_from_slice(&v.to_le_bytes());
}

/// The bytes of a structure file, written out tag by tag.
fn structure_bytes(size: [i32; 3], indices: &[i32], palette: &[&str]) -> Vec<u8> {
    let mut o = Vec::new();
    o.push(10);
    name(&mut o, "");
    o.push(3);
    name(&mut o, "format_version");
    put_int(&mut o, 1);
    o.push(9);
    name(&mut o, "size");
    o.push(3);
    put_int(&mut o, 3);
    for s in size {
        put_int(&mut o, s);
    }
    o.push(10);
    name(&mut o, "structure");
    o.push(9);
    name(&mut o, "block_indices");
    o.push(9);
    put_int(&mut o, 2);
    o.push(3);
    put_int(&mut o, indices.len() as i32);
    for &i in indices {
        put_int(&mut o, i);
    }
    o.push(3);
    put_int(&mut o, indices.len() as i32);
    for _ in indices {
        put_int(&mut o, -1);
    }
    o.push(9);
    name(&mut o, "entities");
    o.push(0);
    put_int(&mut o, 0);
    o.push(10);
    name(&mut o, "palette");
    o.push(10);
    name(&mut o, "default");
    o.push(9);
    name(&mut o, "block_palette");
    o.push(10);
    put_int(&mut o, palette.len() as i32);
    for p in palette {
        o.push(8);
        name(&mut o, "name");
        name(&mut o, p);
        o.push(10);
        name(&mut o, "states");
        o.push(0);
        o.push(3);
        name(&mut o, "version");
        put_int(&mut o, 18090528);
        o.push(0);
    }
    o.push(10);
    name(&mut o, "block_position_data");
    o.push(0);
    o.push(0);
    o.push(0);
    o.push(0);
    o.push(9);
    name(&mut o, "structure_world_origin");
    o.push(3);
    put_int(&mut o, 3);
    put_int(&mut o, 2);
    put_int(&mut o, 2);
    put_int(&mut o, 2);
    o.push(0);
    o
}

#[test]
fn compound_header_writes_tag_and_name() {
    let mut w = NbtWriter::new(Vec::new());
    w.compound_header("ab");
    assert_eq!(w.into_inner(), vec![10, 2, 0, b'a', b'b']);
}

#[test]
fn compound_end_writes_end_tag() {
    let mut w = NbtWriter::new(vec![7]);
    w.compound_end();
    assert_eq!(w.into_inner(), vec![7, 0]);
}

#[test]
fn int_tag_is_little_endian() {
    let mut w = NbtWriter::new(Vec::new());
    w.int_tag("x", -2);
    assert_eq!(w.into_inner(), vec![3, 1, 0, b'x', 0xFE, 0xFF, 0xFF, 0xFF]);
}

#[test]
fn string_tag_writes_both_strings() {
    let mut w = NbtWriter::new(Vec::new());
    w.string_tag("n", "vv");
    assert_eq!(w.into_inner(), vec![8, 1, 0, b'n', 2, 0, b'v', b'v']);
}

#[test]
fn string_lengths_count_bytes() {
    let mut w = NbtWriter::new(Vec::new());
    w.compound_header("é");
    assert_eq!(w.into_inner(), vec![10, 2, 0, 0xC3, 0xA9]);
}

#[test]
fn list_headers() {
    let mut w = NbtWriter::new(Vec::new());
    w.list_header("l", 3, 2);
    w.nameless_list_header(3, 258);
    assert_eq!(w.into_inner(), vec![9, 1, 0, b'l', 3, 2, 0, 0, 0, 3, 2, 1, 0, 0]);
}

#[test]
fn ints_and_lists() {
    let mut w = NbtWriter::new(Vec::new());
    w.nameless_int(1);
    w.int_list(&[1, -1]);
    w.int_neg_ones(2);
    assert_eq!(
        w.into_inner(),
        vec![1, 0, 0, 0, 1, 0, 0, 0, 255, 255, 255, 255, 255, 255, 255, 255, 255, 255, 255, 255]
    );
}

#[test]
fn int_neg_ones_of_zero_writes_nothing() {
    let mut w = NbtWriter::new(Vec::new());
    w.int_neg_ones(0);
    assert!(w.into_inner().is_empty());
}

#[test]
fn empty_structure_file() {
    let s = McStructure::new([1, 1, 1]);
    let mut out = Vec::new();
    s.write_file(&mut out);
    assert_eq!(out, structure_bytes([1, 1, 1], &[-1], &[]));
}

#[test]
fn structure_with_one_block() {
    let mut s = McStructure::new([1, 1, 1]);
    s.set_block([0, 0, 0], "minecraft:stone");
    let mut out = Vec::new();
    s.write_file(&mut out);
    assert_eq!(out, structure_bytes([1, 1, 1], &[0], &["minecraft:stone"]));
}

#[test]
fn set_block_reuses_palette_entries() {
    let mut s = McStructure::new([1, 1, 3]);
    s.set_block([0, 0, 1], "a");
    s.set_block([0, 0, 2], "b");
    s.set_block([0, 0, 3], "a");
    let mut out = Vec::new();
    s.write_file(&mut out);
    assert_eq!(out, structure_bytes([1, 1, 3], &[0, 1, 0], &["a", "b"]));
}

#[test]
fn set_block_outside_changes_nothing() {
    let mut s = McStructure::new([1, 1, 1]);
    s.set_block([2, 0, 0], "a");
    s.set_block([0, -1, 0], "a");
    let mut out = Vec::new();
    s.write_file(&mut out);
    assert_eq!(out, structure_bytes([1, 1, 1], &[-1], &[]));
}

#[test]
fn set_block_slot_formula_counts_from_one() {
    // positions 0 and 1 on an axis share a slot: the slot is (x-1)*sy*sz + (y-1)*sz + (z-1),
    // each term only where the coordinate is positive
    let mut s = McStructure::new([2, 1, 1]);
    s.set_block([0, 0, 0], "a");
    s.set_block([1, 0, 0], "b");
    let mut out = Vec::new();
    s.write_file(&mut out);
    assert_eq!(out, structure_bytes([2, 1, 1], &[1, -1], &["a", "b"]));
}

#[test]
fn negative_size_has_no_slots() {
    let s = McStructure::new([-3, 2, 2]);
    let mut out = Vec::new();
    s.write_file(&mut out);
    assert_eq!(out, structure_bytes([-3, 2, 2], &[], &[]));
}

#[test]
fn exported_blocks_each_keep_their_cell() {
    let blocks = vec![(0, 0, 0, "a".to_string()), (1, 0, 0, "b".to_string())];
    let e = export_blocks_3d(&blocks, true, false, [0, 0, 0], false).unwrap();
    assert_eq!(e.structure.unwrap(), structure_bytes([2, 1, 1], &[0, 1], &["a", "b"]));
    let blocks = vec![(3, 7, 9, "a".to_string()), (4, 8, 9, "b".to_string()), (3, 8, 10, "c".to_string())];
    let e = export_blocks_3d(&blocks, true, false, [0, 0, 0], false).unwrap();
    // box 2x2x2 from (3,7,9): cell index (x*2 + y)*2 + z
    assert_eq!(
        e.structure.unwrap(),
        structure_bytes([2, 2, 2], &[0, -1, -1, 2, -1, -1, 1, -1], &["a", "b", "c"])
    );
}

#[test]
fn pixel_structure_keeps_every_block() {
    let palette = vec![
        PaletteColorInput { id: "stone".to_string(), average: [1, 2, 3] },
        PaletteColorInput { id: "dirt".to_string(), average: [100, 200, 50] },
    ];
    let params = GenParams {
        plane: 1,
        color_distance: "RGB".to_string(),
        use_staircase: false,
        use_struct: true,
        staircase_gap: 1,
        staircase_compress: false,
        offset: [0, 0, 0],
        auto_slice_mcfunction: false,
        use_dithering: false,
        socket_output: false,
        ldb_output: false,
    };
    let out = generate(2, 1, None, &vec![0, 1], &palette, &params).unwrap();
    let size = out.size;
    assert_eq!(size[0] * size[1] * size[2], 2);
    let bytes = out.structure.unwrap();
    let mut s = McStructure::new([2, 1, 1]);
    s.set_block([1, 1, 1], "stone");
    s.set_block([2, 1, 1], "dirt");
    let mut want = Vec::new();
    s.write_file(&mut want);
    let mut s2 = McStructure::new([1, 1, 2]);
    s2.set_block([1, 1, 1], "stone");
    s2.set_block([1, 1, 2], "dirt");
    let mut want2 = Vec::new();
    s2.write_file(&mut want2);
    assert!(bytes == want || bytes == want2);
}

#[test]
fn structure_file_gives_back_size_and_slots() {
    let mut s = McStructure::new([2, 3, 4]);
    s.set_block([1, 1, 1], "a");
    s.set_block([2, 3, 4], "b");
    let mut out = Vec::new();
    s.write_file(&mut out);
    let read = |at: usize| i32::from_le_bytes([out[at], out[at + 1], out[at + 2], out[at + 3]]);
    assert_eq!([read(36), read(40), read(44)], [2, 3, 4]);
    assert_eq!(read(82), 24);
    let slots: Vec<i32> = (0..24).map(|k| read(86 + 4 * k)).collect();
    let mut expected = vec![-1; 24];
    expected[0] = 0;
    expected[23] = 1;
    assert_eq!(slots, expected);
}
