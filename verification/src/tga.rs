//! Header of an uncompressed true-colour TGA file.
use vstd::prelude::*;

verus! {

/// Number of bytes a header takes in a file.
pub const HEADER_LENGTH: usize = 18;

/// The fixed-size header that precedes the pixel data.
#[derive(Copy, Clone, Debug)]
pub struct TgaHeader {
    pub id_length: u8,
    pub color_map_type: u8,
    pub image_type: u8,
    pub color_map: [u8; 5],
    pub x_origin: u16,
    pub y_origin: u16,
    pub width: u16,
    pub height: u16,
    pub pixel_depth: u8,
    pub image_descriptor: u8,
}

/// Low byte of a 16-bit field.
pub open spec fn low(field: u16) -> u8 {
    (field % 256) as u8
}

/// High byte of a 16-bit field.
pub open spec fn high(field: u16) -> u8 {
    (field / 256) as u8
}

/// The header as it stands in a file: the fields in order, 16-bit fields low
/// byte first.
pub open spec fn header_bytes(header: TgaHeader) -> Seq<u8> {
    seq![
        header.id_length,
        header.color_map_type,
        header.image_type,
        header.color_map[0],
        header.color_map[1],
        header.color_map[2],
        header.color_map[3],
        header.color_map[4],
        low(header.x_origin),
        high(header.x_origin),
        low(header.y_origin),
        high(header.y_origin),
        low(header.width),
        high(header.width),
        low(header.height),
        high(header.height),
        header.pixel_depth,
        header.image_descriptor,
    ]
}

impl TgaHeader {
    /// Header of an uncompressed image of 24 bits per pixel with no colour map
    /// and its origin at the lower left. A width or height beyond 16 bits is
    /// cut to its low 16 bits.
    pub fn rgb(width: usize, height: usize) -> (header: TgaHeader)
        ensures
            header.id_length == 0,
            header.color_map_type == 0,
            header.image_type == 2,
            header.color_map@ == seq![0u8, 0u8, 0u8, 0u8, 0u8],
            header.x_origin == 0,
            header.y_origin == 0,
            header.width == width % 65536,
            header.height == height % 65536,
            header.pixel_depth == 24,
            header.image_descriptor == 0,
    {
        let color_map: [u8; 5] = [0, 0, 0, 0, 0];
        TgaHeader {
            id_length: 0,
            color_map_type: 0,
            image_type: 2,
            color_map,
            x_origin: 0,
            y_origin: 0,
            width: (width % 65536) as u16,
            height: (height % 65536) as u16,
            pixel_depth: 24,
            image_descriptor: 0,
        }
    }

    /// The bytes of the header as they stand in a file.
    pub fn to_bytes(&self) -> (bytes: Vec<u8>)
        ensures
            bytes@ == header_bytes(*self),
            bytes.len() == HEADER_LENGTH,
    {
        let mut bytes: Vec<u8> = Vec::new();
        bytes.push(self.id_length);
        bytes.push(self.color_map_type);
        bytes.push(self.image_type);
        bytes.push(self.color_map[0]);
        bytes.push(self.color_map[1]);
        bytes.push(self.color_map[2]);
        bytes.push(self.color_map[3]);
        bytes.push(self.color_map[4]);
        bytes.push((self.x_origin % 256) as u8);
        bytes.push((self.x_origin / 256) as u8);
        bytes.push((self.y_origin % 256) as u8);
        bytes.push((self.y_origin / 256) as u8);
        bytes.push((self.width % 256) as u8);
        bytes.push((self.width / 256) as u8);
        bytes.push((self.height % 256) as u8);
        bytes.push((self.height / 256) as u8);
        bytes.push(self.pixel_depth);
        bytes.push(self.image_descriptor);
        bytes
    }
}

} // verus!
