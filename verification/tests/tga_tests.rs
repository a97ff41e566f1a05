use gus::tga::TgaHeader;
use gus::tga::HEADER_LENGTH;

#[test]
fn rgb_header_fields() {
    let header = TgaHeader::rgb(1920, 1080);
    assert_eq!(header.id_length, 0);
    assert_eq!(header.color_map_type, 0);
    assert_eq!(header.image_type, 2);
    assert_eq!(header.color_map, [0, 0, 0, 0, 0]);
    assert_eq!(header.x_origin, 0);
    assert_eq!(header.y_origin, 0);
    assert_eq!(header.width, 1920);
    assert_eq!(header.height, 1080);
    assert_eq!(header.pixel_depth, 24);
    assert_eq!(header.image_descriptor, 0);
}

#[test]
fn rgb_header_bytes_full_hd() {
    let bytes = TgaHeader::rgb(1920, 1080).to_bytes();
    assert_eq!(bytes.len(), HEADER_LENGTH);
    assert_eq!(
        bytes,
        vec![0u8, 0, 2, 0, 0, 0, 0, 0, 0, 0, 0, 0, 128, 7, 56, 4, 24, 0]
    );
}

#[test]
fn rgb_header_bytes_quarter_hd() {
    let bytes = TgaHeader::rgb(960, 540).to_bytes();
    assert_eq!(
        bytes,
        vec![0u8, 0, 2, 0, 0, 0, 0, 0, 0, 0, 0, 0, 192, 3, 28, 2, 24, 0]
    );
}

#[test]
fn rgb_header_cuts_to_sixteen_bits() {
    let header = TgaHeader::rgb(65536 + 5, 65535);
    assert_eq!(header.width, 5);
    assert_eq!(header.height, 65535);
    let header = TgaHeader::rgb(0, 131072);
    assert_eq!(header.width, 0);
    assert_eq!(header.height, 0);
}
