use ui_guido::textures::{Texture, BLOCK_COUNT, CONTENT_COUNT, TEXTURE_COUNT};
use ui_guido::tile::{Content, Tile, TileType};

fn tile(tile_type: TileType, elevation: usize) -> Tile {
    Tile { tile_type, content: Content::Nothing, elevation }
}

#[test]
fn sand_is_drawn_by_elevation_tier() {
    assert_eq!(Texture::from_tile(&tile(TileType::Sand, 2)), Texture::SandHalf);
    assert_eq!(Texture::from_tile(&tile(TileType::Sand, 3)), Texture::SandBlock);
}

#[test]
fn every_terrain_has_a_low_and_a_high_sprite() {
    let cases = vec![
        (TileType::Sand, Texture::SandHalf, Texture::SandBlock),
        (TileType::Hill, Texture::HillHalf, Texture::HillBlock),
        (TileType::Snow, Texture::SnowHalf, Texture::SnowBlock),
        (TileType::Lava, Texture::LavaHalf, Texture::LavaBlock),
        (TileType::Wall, Texture::WallHalf, Texture::WallBlock),
        (TileType::Grass, Texture::GrassHalf, Texture::GrassBlock),
        (TileType::Street, Texture::StreetHalf, Texture::StreetBlock),
        (TileType::Mountain, Texture::MountainHalf, Texture::MountainBlock),
        (TileType::DeepWater, Texture::DeepWaterHalf, Texture::DeepWaterBlock),
        (TileType::ShallowWater, Texture::ShallowWaterHalf, Texture::ShallowWaterBlock),
        (TileType::Teleport, Texture::TeleportHalf, Texture::TeleportBlock),
    ];
    for (kind, half, block) in cases {
        assert_eq!(Texture::from_tile(&tile(kind, 0)), half);
        assert_eq!(Texture::from_tile(&tile(kind, 2)), half);
        assert_eq!(Texture::from_tile(&tile(kind, 3)), block);
        assert_eq!(Texture::from_tile(&tile(kind, 100)), block);
    }
}

#[test]
fn tile_sprite_ignores_the_content() {
    let bare = Tile { tile_type: TileType::Grass, content: Content::Nothing, elevation: 1 };
    let wooded = Tile { tile_type: TileType::Grass, content: Content::Tree, elevation: 1 };
    assert_eq!(Texture::from_tile(&bare), Texture::from_tile(&wooded));
}

#[test]
fn contents_map_to_their_sprites() {
    assert_eq!(Texture::from_content(&Content::Nothing), None);
    assert_eq!(Texture::from_content(&Content::Water), None);
    assert_eq!(Texture::from_content(&Content::Fish), Some(Texture::Fish));
    assert_eq!(Texture::from_content(&Content::Tree), Some(Texture::Tree));
    assert_eq!(Texture::from_content(&Content::Rock), Some(Texture::Rock));
    assert_eq!(Texture::from_content(&Content::Bush), Some(Texture::Bush));
    assert_eq!(Texture::from_content(&Content::Fire), Some(Texture::Fire));
    assert_eq!(Texture::from_content(&Content::Garbage), Some(Texture::Garbage));
    assert_eq!(Texture::from_content(&Content::Coin), Some(Texture::Coin));
    assert_eq!(Texture::from_content(&Content::Bin), Some(Texture::Bin));
    assert_eq!(Texture::from_content(&Content::Crate), Some(Texture::Crate));
    assert_eq!(Texture::from_content(&Content::Market), Some(Texture::Market));
    assert_eq!(Texture::from_content(&Content::Bank), Some(Texture::Bank));
    assert_eq!(Texture::from_content(&Content::Building), Some(Texture::Building));
    assert_eq!(Texture::from_content(&Content::Scarecrow), Some(Texture::Scarecrow));
    assert_eq!(Texture::from_content(&Content::JollyBlock), Some(Texture::JollyBlock));
}

#[test]
fn blocks_are_the_terrain_sprites_in_table_order() {
    let blocks = Texture::get_blocks();
    assert_eq!(blocks.len(), 22);
    assert_eq!(blocks.len(), BLOCK_COUNT);
    assert_eq!(blocks[0], Texture::SandBlock);
    assert_eq!(blocks[1], Texture::SandHalf);
    assert_eq!(blocks[10], Texture::GrassBlock);
    assert_eq!(blocks[21], Texture::TeleportHalf);
    for (i, texture) in blocks.iter().enumerate() {
        assert_eq!(texture.index(), i);
    }
    assert!(!blocks.contains(&Texture::Tree));
    assert!(!blocks.contains(&Texture::Player));
}

#[test]
fn contents_follow_the_blocks_in_the_table() {
    let contents = Texture::get_contents();
    assert_eq!(contents.len(), 14);
    assert_eq!(contents.len(), CONTENT_COUNT);
    assert_eq!(contents[0], Texture::Fish);
    assert_eq!(contents[13], Texture::JollyBlock);
    for (i, texture) in contents.iter().enumerate() {
        assert_eq!(texture.index(), BLOCK_COUNT + i);
    }
    assert_eq!(Texture::Player.index(), 36);
    assert_eq!(TEXTURE_COUNT, 37);
}

#[test]
fn sprites_are_sixteen_pixels_square() {
    assert_eq!(Texture::width(), 16);
    assert_eq!(Texture::height(), 16);
}

#[test]
fn image_paths_name_folder_and_kind() {
    assert_eq!(Texture::SandBlock.get_image_path(), "/blocks/sand.png");
    assert_eq!(Texture::SandHalf.get_image_path(), "/halfs/sand.png");
    assert_eq!(Texture::DeepWaterBlock.get_image_path(), "/blocks/deepwater.png");
    assert_eq!(Texture::ShallowWaterHalf.get_image_path(), "/halfs/shallowwater.png");
    assert_eq!(Texture::TeleportHalf.get_image_path(), "/halfs/teleport.png");
    assert_eq!(Texture::Tree.get_image_path(), "/contents/tree.png");
    assert_eq!(Texture::JollyBlock.get_image_path(), "/contents/jollyblock.png");
    assert_eq!(Texture::Player.get_image_path(), "/player/robot.png");
}

#[test]
fn every_sprite_has_its_own_image() {
    let mut all = Texture::get_blocks();
    all.extend(Texture::get_contents());
    all.push(Texture::Player);
    assert_eq!(all.len(), 37);
    for (i, a) in all.iter().enumerate() {
        assert!(a.get_image_path().ends_with(".png"));
        for b in all.iter().skip(i + 1) {
            assert_ne!(a.get_image_path(), b.get_image_path());
        }
    }
}
