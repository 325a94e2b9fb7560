//! The colour tables: one 4 by 4 texture per wall symbol, and the 3 by 3 player sprite.

use vstd::prelude::*;

verus! {

/// The texture of the walls marked `+`, top row first.
pub open spec fn wall_texture1() -> Seq<Seq<u32>> {
    seq![
        seq![0xFF5733u32, 0xFF5733u32, 0xC70039u32, 0xC70039u32],
        seq![0xFF5733u32, 0xFF5733u32, 0xC70039u32, 0xC70039u32],
        seq![0x900C3Fu32, 0x900C3Fu32, 0x581845u32, 0x581845u32],
        seq![0x900C3Fu32, 0x900C3Fu32, 0x581845u32, 0x581845u32],
    ]
}

/// The texture of the walls marked `#`, top row first.
pub open spec fn wall_texture2() -> Seq<Seq<u32>> {
    seq![
        seq![0x7A7A7Au32, 0x7A7A7Au32, 0xFF5733u32, 0xFF5733u32],
        seq![0x7A7A7Au32, 0x7A7A7Au32, 0xFF5733u32, 0xFF5733u32],
        seq![0x5A5A5Au32, 0x5A5A5Au32, 0x4A4A4Au32, 0x4A4A4Au32],
        seq![0x5A5A5Au32, 0x5A5A5Au32, 0x4A4A4Au32, 0x4A4A4Au32],
    ]
}

/// The texture of the walls marked `*`, top row first.
pub open spec fn wall_texture3() -> Seq<Seq<u32>> {
    seq![
        seq![0x9A9A9Au32, 0x9A9A9Au32, 0x7A1A1Au32, 0x7A1A1Au32],
        seq![0x9A9A9Au32, 0x9A9A9Au32, 0x7A1A1Au32, 0x7A1A1Au32],
        seq![0x7A7A7Au32, 0x7A7A7Au32, 0x6A6A6Au32, 0x6A6A6Au32],
        seq![0x7A7A7Au32, 0x7A7A7Au32, 0x6A6A6Au32, 0x6A6A6Au32],
    ]
}

/// The player sprite, top row first: a white cross on black.
pub open spec fn player_sprite() -> Seq<Seq<u32>> {
    seq![
        seq![0xFFFFFFu32, 0x000000u32, 0xFFFFFFu32],
        seq![0x000000u32, 0xFFFFFFu32, 0x000000u32],
        seq![0xFFFFFFu32, 0x000000u32, 0xFFFFFFu32],
    ]
}

/// The texture of a wall symbol. Symbols without a texture of their own share the first.
pub open spec fn texture_of(symbol: char) -> Seq<Seq<u32>> {
    if symbol == '#' {
        wall_texture2()
    } else if symbol == '*' {
        wall_texture3()
    } else {
        wall_texture1()
    }
}

/// Whether `table` has `size` rows of `size` colours each.
pub open spec fn is_square(table: Seq<Seq<u32>>, size: int) -> bool {
    table.len() == size && forall|r: int| 0 <= r < size ==> (#[trigger] table[r]).len() == size
}

/// Every wall texture is 4 by 4.
pub proof fn lemma_textures_square(symbol: char)
    ensures
        is_square(texture_of(symbol), 4),
{
}

/// The texture of the walls marked `+`.
pub fn get_wall_texture1() -> (texture: Vec<Vec<u32>>)
    ensures
        texture.deep_view() == wall_texture1(),
{
    let texture = vec![
        vec![0xFF5733u32, 0xFF5733, 0xC70039, 0xC70039],
        vec![0xFF5733, 0xFF5733, 0xC70039, 0xC70039],
        vec![0x900C3F, 0x900C3F, 0x581845, 0x581845],
        vec![0x900C3F, 0x900C3F, 0x581845, 0x581845],
    ];
    assert(texture@[0].deep_view() =~= wall_texture1()[0]);
    assert(texture@[1].deep_view() =~= wall_texture1()[1]);
    assert(texture@[2].deep_view() =~= wall_texture1()[2]);
    assert(texture@[3].deep_view() =~= wall_texture1()[3]);
    assert(texture.deep_view() =~= wall_texture1());
    texture
}

/// The texture of the walls marked `#`.
pub fn get_wall_texture2() -> (texture: Vec<Vec<u32>>)
    ensures
        texture.deep_view() == wall_texture2(),
{
    let texture = vec![
        vec![0x7A7A7Au32, 0x7A7A7A, 0xFF5733, 0xFF5733],
        vec![0x7A7A7A, 0x7A7A7A, 0xFF5733, 0xFF5733],
        vec![0x5A5A5A, 0x5A5A5A, 0x4A4A4A, 0x4A4A4A],
        vec![0x5A5A5A, 0x5A5A5A, 0x4A4A4A, 0x4A4A4A],
    ];
    assert(texture@[0].deep_view() =~= wall_texture2()[0]);
    assert(texture@[1].deep_view() =~= wall_texture2()[1]);
    assert(texture@[2].deep_view() =~= wall_texture2()[2]);
    assert(texture@[3].deep_view() =~= wall_texture2()[3]);
    assert(texture.deep_view() =~= wall_texture2());
    texture
}

/// The texture of the walls marked `*`.
pub fn get_wall_texture3() -> (texture: Vec<Vec<u32>>)
    ensures
        texture.deep_view() == wall_texture3(),
{
    let texture = vec![
        vec![0x9A9A9Au32, 0x9A9A9A, 0x7A1A1A, 0x7A1A1A],
        vec![0x9A9A9A, 0x9A9A9A, 0x7A1A1A, 0x7A1A1A],
        vec![0x7A7A7A, 0x7A7A7A, 0x6A6A6A, 0x6A6A6A],
        vec![0x7A7A7A, 0x7A7A7A, 0x6A6A6A, 0x6A6A6A],
    ];
    assert(texture@[0].deep_view() =~= wall_texture3()[0]);
    assert(texture@[1].deep_view() =~= wall_texture3()[1]);
    assert(texture@[2].deep_view() =~= wall_texture3()[2]);
    assert(texture@[3].deep_view() =~= wall_texture3()[3]);
    assert(texture.deep_view() =~= wall_texture3());
    texture
}

/// The player sprite.
pub fn get_player_sprite() -> (sprite: Vec<Vec<u32>>)
    ensures
        sprite.deep_view() == player_sprite(),
{
    let sprite = vec![
        vec![0xFFFFFFu32, 0x000000, 0xFFFFFF],
        vec![0x000000, 0xFFFFFF, 0x000000],
        vec![0xFFFFFF, 0x000000, 0xFFFFFF],
    ];
    assert(sprite@[0].deep_view() =~= player_sprite()[0]);
    assert(sprite@[1].deep_view() =~= player_sprite()[1]);
    assert(sprite@[2].deep_view() =~= player_sprite()[2]);
    assert(sprite.deep_view() =~= player_sprite());
    sprite
}

/// The texture of a wall symbol.
pub fn get_texture(symbol: char) -> (texture: Vec<Vec<u32>>)
    ensures
        texture.deep_view() == texture_of(symbol),
{
    match symbol {
        '#' => get_wall_texture2(),
        '*' => get_wall_texture3(),
        _ => get_wall_texture1(),
    }
}

} // verus!
