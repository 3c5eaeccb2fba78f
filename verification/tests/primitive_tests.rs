use colorify::obj::Tri;
use colorify::primitive::{
    data_uri_payload, data_uri_result, decode_data_uri, material_slot, primitive_tris,
    rgba_pixels, Channels, PixelFormat, PrimitiveMode, TableBases,
};

fn bases() -> TableBases {
    TableBases {
        vertex: 10,
        uv: 20,
        colour: 30,
        normal: 40,
    }
}

fn positions(ts: &[Tri]) -> Vec<[usize; 3]> {
    ts.iter().map(|t| t.position).collect()
}

#[test]
fn triangles_take_triples() {
    let ch = Channels {
        uv: true,
        colour: false,
        normal: true,
    };
    let ts = primitive_tris(&vec![0, 1, 2, 2, 1, 3, 7], PrimitiveMode::Triangles, bases(), ch, 4)
        .unwrap();
    assert_eq!(positions(&ts), vec![[10, 11, 12], [12, 11, 13]]);
    assert_eq!(ts[0].texcoord, Some([20, 21, 22]));
    assert_eq!(ts[0].colour, None);
    assert_eq!(ts[1].normal, Some([42, 41, 43]));
    assert_eq!(ts[1].material, 4);
}

#[test]
fn strip_alternates_winding() {
    let ch = Channels {
        uv: false,
        colour: true,
        normal: false,
    };
    let ts = primitive_tris(&vec![0, 1, 2, 3, 4], PrimitiveMode::TriangleStrip, bases(), ch, 0)
        .unwrap();
    assert_eq!(positions(&ts), vec![[10, 11, 12], [12, 11, 13], [12, 13, 14]]);
    assert_eq!(ts[1].colour, Some([32, 31, 33]));
    assert_eq!(ts[1].texcoord, None);
}

#[test]
fn fan_shares_first_index() {
    let ch = Channels {
        uv: false,
        colour: false,
        normal: false,
    };
    let ts = primitive_tris(&vec![5, 6, 7, 8], PrimitiveMode::TriangleFan, bases(), ch, 1).unwrap();
    assert_eq!(positions(&ts), vec![[15, 16, 17], [15, 17, 18]]);
}

#[test]
fn lines_are_refused() {
    let ch = Channels {
        uv: false,
        colour: false,
        normal: false,
    };
    let e = primitive_tris(&vec![0, 1, 2], PrimitiveMode::Lines, bases(), ch, 0).unwrap_err();
    assert_eq!(e, "不支持的图元模式: Lines");
    let none = primitive_tris(&vec![0, 1], PrimitiveMode::Points, bases(), ch, 0).unwrap();
    assert!(none.is_empty());
}

#[test]
fn material_slot_clamps() {
    assert_eq!(material_slot(Some(2), 5), 2);
    assert_eq!(material_slot(Some(9), 5), 4);
    assert_eq!(material_slot(None, 5), 0);
    assert_eq!(material_slot(Some(3), 0), 0);
}

#[test]
fn rgba_from_rgb_and_grey() {
    assert_eq!(
        rgba_pixels(PixelFormat::R8G8B8, &[1, 2, 3, 4, 5, 6, 7]),
        Some(vec![1, 2, 3, 255, 4, 5, 6, 255])
    );
    assert_eq!(
        rgba_pixels(PixelFormat::R8, &[9, 8]),
        Some(vec![9, 9, 9, 255, 8, 8, 8, 255])
    );
    assert_eq!(rgba_pixels(PixelFormat::R8G8B8A8, &[1, 2, 3]), Some(vec![1, 2, 3]));
}

#[test]
fn rgba_from_sixteen_bit_keeps_high_byte() {
    let px = [0x11, 0xA1, 0x22, 0xB2, 0x33, 0xC3];
    assert_eq!(rgba_pixels(PixelFormat::R16G16B16, &px), Some(vec![0xA1, 0xB2, 0xC3, 255]));
    let px = [0, 1, 0, 2, 0, 3, 0, 4];
    assert_eq!(rgba_pixels(PixelFormat::R16G16B16A16, &px), Some(vec![1, 2, 3, 4]));
    assert_eq!(rgba_pixels(PixelFormat::R16G16, &px), None);
}

#[test]
fn data_uri_payload_follows_first_comma() {
    assert_eq!(data_uri_payload("image/png;base64,aGk=,x"), "aGk=,x");
    assert_eq!(data_uri_payload("aGk="), "aGk=");
}

#[test]
fn data_uri_decodes_base64() {
    assert_eq!(decode_data_uri("image/png;base64,aGk=").unwrap(), b"hi".to_vec());
    let e = decode_data_uri("image/png;base64,a$").unwrap_err();
    assert!(e.starts_with("data URI 解码失败: "));
    assert_eq!(data_uri_result(Err("bad".to_string())).unwrap_err(), "data URI 解码失败: bad");
}
