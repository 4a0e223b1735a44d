//! The test pattern that the shapes are textured with.

use vstd::prelude::*;

verus! {

/// The width and the height of the texture, in texels.
pub const TEXTURE_SIZE: usize = 8;

/// The eight colours of the pattern, four bytes each: red, green, blue, alpha.
pub open spec fn palette() -> Seq<u8> {
    seq![
        255u8, 102u8, 159u8, 255u8, 255u8, 159u8, 102u8, 255u8, 236u8, 255u8, 102u8, 255u8, 121u8,
        255u8, 102u8, 255u8, 102u8, 255u8, 198u8, 255u8, 102u8, 198u8, 255u8, 255u8, 121u8, 102u8,
        255u8, 255u8, 236u8, 102u8, 255u8, 255u8,
    ]
}

/// The byte at `index` of the texture: each row holds the palette, turned one colour
/// further to the right than the row above.
pub open spec fn texture_byte(index: int) -> u8 {
    let row = index / 32;
    let column = index % 32;
    palette()[(column + 32 - 4 * row) % 32]
}

fn palette_bytes() -> (bytes: Vec<u8>)
    ensures
        bytes@ == palette(),
{
    let bytes: Vec<u8> = vec![
        255u8, 102u8, 159u8, 255u8, 255u8, 159u8, 102u8, 255u8, 236u8, 255u8, 102u8, 255u8, 121u8,
        255u8, 102u8, 255u8, 102u8, 255u8, 198u8, 255u8, 102u8, 198u8, 255u8, 255u8, 121u8, 102u8,
        255u8, 255u8, 236u8, 102u8, 255u8, 255u8,
    ];
    assert(bytes@ =~= palette());
    bytes
}

/// The bytes of a colourful test pattern of [`TEXTURE_SIZE`] by [`TEXTURE_SIZE`]
/// texels, row by row, four bytes a texel.
pub fn uv_debug_texture() -> (texture_data: Vec<u8>)
    ensures
        texture_data@.len() == TEXTURE_SIZE * TEXTURE_SIZE * 4,
        forall|index: int|
            0 <= index < texture_data@.len() ==> texture_data@[index] == texture_byte(index),
{
    let colours: Vec<u8> = palette_bytes();
    let mut texture_data: Vec<u8> = Vec::new();
    let mut row: usize = 0;
    while row < TEXTURE_SIZE
        invariant
            0 <= row <= TEXTURE_SIZE,
            colours@ == palette(),
            texture_data@.len() == row * 32,
            forall|index: int|
                0 <= index < texture_data@.len() ==> texture_data@[index] == texture_byte(index),
        decreases TEXTURE_SIZE - row,
    {
        let mut column: usize = 0;
        while column < 32
            invariant
                0 <= column <= 32,
                0 <= row < TEXTURE_SIZE,
                colours@ == palette(),
                texture_data@.len() == row * 32 + column,
                forall|index: int|
                    0 <= index < texture_data@.len() ==> texture_data@[index] == texture_byte(
                        index,
                    ),
            decreases 32 - column,
        {
            let source: usize = (column + 32 - 4 * row) % 32;
            texture_data.push(colours[source]);
            column = column + 1;
        }
        row = row + 1;
    }
    texture_data
}

} // verus!
