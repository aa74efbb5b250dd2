//! The sprite catalog: which sprite stands for a tile or a content, and where
//! a sprite sits in the tables of the layers.

use vstd::prelude::*;
use crate::tile::{is_low, Content, Tile, TileType, HIGH_ELEVATION};

verus! {

/// A sprite key. The first `BLOCK_COUNT` variants are the terrain sprites,
/// full-height and half-height by turns; contents and the player follow.
#[derive(Clone, Copy, Debug, PartialEq, Eq, Structural, Hash)]
pub enum Texture {
    SandBlock,
    SandHalf,
    HillBlock,
    HillHalf,
    SnowBlock,
    SnowHalf,
    LavaBlock,
    LavaHalf,
    WallBlock,
    WallHalf,
    GrassBlock,
    GrassHalf,
    StreetBlock,
    StreetHalf,
    MountainBlock,
    MountainHalf,
    DeepWaterBlock,
    DeepWaterHalf,
    ShallowWaterBlock,
    ShallowWaterHalf,
    TeleportBlock,
    TeleportHalf,
    Fish,
    Tree,
    Bush,
    Rock,
    Fire,
    Garbage,
    Coin,
    Bin,
    Crate,
    Market,
    Bank,
    Building,
    Scarecrow,
    JollyBlock,
    Player,
}

/// Number of terrain sprites.
pub const BLOCK_COUNT: usize = 22;

/// Number of content sprites. They follow the terrain sprites in the sprite
/// table.
pub const CONTENT_COUNT: usize = 14;

/// Number of sprites in all.
pub const TEXTURE_COUNT: usize = 37;

/// Width and height of every sprite, in pixels.
pub const SPRITE_SIZE: i64 = 16;

/// The full-height sprite of a terrain kind.
pub open spec fn block_of(tile_type: TileType) -> Texture {
    match tile_type {
        TileType::Sand => Texture::SandBlock,
        TileType::Hill => Texture::HillBlock,
        TileType::Snow => Texture::SnowBlock,
        TileType::Lava => Texture::LavaBlock,
        TileType::Wall => Texture::WallBlock,
        TileType::Grass => Texture::GrassBlock,
        TileType::Street => Texture::StreetBlock,
        TileType::Mountain => Texture::MountainBlock,
        TileType::DeepWater => Texture::DeepWaterBlock,
        TileType::ShallowWater => Texture::ShallowWaterBlock,
        TileType::Teleport => Texture::TeleportBlock,
    }
}

/// The position of a terrain kind in the sprite table, counted in pairs.
pub open spec fn terrain_rank(tile_type: TileType) -> int {
    match tile_type {
        TileType::Sand => 0,
        TileType::Hill => 1,
        TileType::Snow => 2,
        TileType::Lava => 3,
        TileType::Wall => 4,
        TileType::Grass => 5,
        TileType::Street => 6,
        TileType::Mountain => 7,
        TileType::DeepWater => 8,
        TileType::ShallowWater => 9,
        TileType::Teleport => 10,
    }
}

/// The sprite that stands at a position of the sprite table.
pub open spec fn texture_at(index: int) -> Texture {
    if index == 0 {
        Texture::SandBlock
    } else if index == 1 {
        Texture::SandHalf
    } else if index == 2 {
        Texture::HillBlock
    } else if index == 3 {
        Texture::HillHalf
    } else if index == 4 {
        Texture::SnowBlock
    } else if index == 5 {
        Texture::SnowHalf
    } else if index == 6 {
        Texture::LavaBlock
    } else if index == 7 {
        Texture::LavaHalf
    } else if index == 8 {
        Texture::WallBlock
    } else if index == 9 {
        Texture::WallHalf
    } else if index == 10 {
        Texture::GrassBlock
    } else if index == 11 {
        Texture::GrassHalf
    } else if index == 12 {
        Texture::StreetBlock
    } else if index == 13 {
        Texture::StreetHalf
    } else if index == 14 {
        Texture::MountainBlock
    } else if index == 15 {
        Texture::MountainHalf
    } else if index == 16 {
        Texture::DeepWaterBlock
    } else if index == 17 {
        Texture::DeepWaterHalf
    } else if index == 18 {
        Texture::ShallowWaterBlock
    } else if index == 19 {
        Texture::ShallowWaterHalf
    } else if index == 20 {
        Texture::TeleportBlock
    } else if index == 21 {
        Texture::TeleportHalf
    } else if index == 22 {
        Texture::Fish
    } else if index == 23 {
        Texture::Tree
    } else if index == 24 {
        Texture::Bush
    } else if index == 25 {
        Texture::Rock
    } else if index == 26 {
        Texture::Fire
    } else if index == 27 {
        Texture::Garbage
    } else if index == 28 {
        Texture::Coin
    } else if index == 29 {
        Texture::Bin
    } else if index == 30 {
        Texture::Crate
    } else if index == 31 {
        Texture::Market
    } else if index == 32 {
        Texture::Bank
    } else if index == 33 {
        Texture::Building
    } else if index == 34 {
        Texture::Scarecrow
    } else if index == 35 {
        Texture::JollyBlock
    } else {
        Texture::Player
    }
}

/// The sprite of a tile: decided by the terrain kind and the elevation tier
/// alone. In the sprite table each terrain kind owns two neighbouring
/// entries, the full-height sprite first.
pub open spec fn tile_texture(tile: Tile) -> Texture {
    texture_at(2 * terrain_rank(tile.tile_type) + if is_low(tile.elevation) { 1int } else { 0int })
}

/// The sprite of a content, if it is drawn at all.
pub open spec fn content_texture(content: Content) -> Option<Texture> {
    match content {
        Content::Fish => Some(Texture::Fish),
        Content::Tree => Some(Texture::Tree),
        Content::Rock => Some(Texture::Rock),
        Content::Bush => Some(Texture::Bush),
        Content::Fire => Some(Texture::Fire),
        Content::Garbage => Some(Texture::Garbage),
        Content::Coin => Some(Texture::Coin),
        Content::Bin => Some(Texture::Bin),
        Content::Crate => Some(Texture::Crate),
        Content::Market => Some(Texture::Market),
        Content::Bank => Some(Texture::Bank),
        Content::Building => Some(Texture::Building),
        Content::Scarecrow => Some(Texture::Scarecrow),
        Content::JollyBlock => Some(Texture::JollyBlock),
        Content::Water => None,
        Content::Nothing => None,
    }
}

/// The folder of a sprite's image: one for the full-height terrain sprites,
/// one for the half-height ones, one for the contents and one for the
/// player.
pub open spec fn image_folder(texture: Texture) -> Seq<char> {
    if texture.is_block() {
        if texture.spec_index() % 2 == 0 {
            "/blocks/"@
        } else {
            "/halfs/"@
        }
    } else if texture.is_content() {
        "/contents/"@
    } else {
        "/player/"@
    }
}

/// The name of a sprite's image within its folder: the terrain or content
/// kind in lower case. The two sprites of a terrain kind share one name.
pub open spec fn image_stem(texture: Texture) -> Seq<char> {
    match texture {
        Texture::SandBlock | Texture::SandHalf => "sand"@,
        Texture::HillBlock | Texture::HillHalf => "hill"@,
        Texture::SnowBlock | Texture::SnowHalf => "snow"@,
        Texture::LavaBlock | Texture::LavaHalf => "lava"@,
        Texture::WallBlock | Texture::WallHalf => "wall"@,
        Texture::GrassBlock | Texture::GrassHalf => "grass"@,
        Texture::StreetBlock | Texture::StreetHalf => "street"@,
        Texture::MountainBlock | Texture::MountainHalf => "mountain"@,
        Texture::DeepWaterBlock | Texture::DeepWaterHalf => "deepwater"@,
        Texture::ShallowWaterBlock | Texture::ShallowWaterHalf => "shallowwater"@,
        Texture::TeleportBlock | Texture::TeleportHalf => "teleport"@,
        Texture::Fish => "fish"@,
        Texture::Tree => "tree"@,
        Texture::Bush => "bush"@,
        Texture::Rock => "rock"@,
        Texture::Fire => "fire"@,
        Texture::Garbage => "garbage"@,
        Texture::Coin => "coin"@,
        Texture::Bin => "bin"@,
        Texture::Crate => "crate"@,
        Texture::Market => "market"@,
        Texture::Bank => "bank"@,
        Texture::Building => "building"@,
        Texture::Scarecrow => "scarecrow"@,
        Texture::JollyBlock => "jollyblock"@,
        Texture::Player => "robot"@,
    }
}

/// The path of a sprite's image among the assets: folder, name and ending.
pub open spec fn image_path(texture: Texture) -> Seq<char> {
    image_folder(texture) + image_stem(texture) + ".png"@
}

impl Texture {
    /// The position of this sprite in the sprite table.
    pub open spec fn spec_index(self) -> int {
        match self {
            Texture::SandBlock => 0,
            Texture::SandHalf => 1,
            Texture::HillBlock => 2,
            Texture::HillHalf => 3,
            Texture::SnowBlock => 4,
            Texture::SnowHalf => 5,
            Texture::LavaBlock => 6,
            Texture::LavaHalf => 7,
            Texture::WallBlock => 8,
            Texture::WallHalf => 9,
            Texture::GrassBlock => 10,
            Texture::GrassHalf => 11,
            Texture::StreetBlock => 12,
            Texture::StreetHalf => 13,
            Texture::MountainBlock => 14,
            Texture::MountainHalf => 15,
            Texture::DeepWaterBlock => 16,
            Texture::DeepWaterHalf => 17,
            Texture::ShallowWaterBlock => 18,
            Texture::ShallowWaterHalf => 19,
            Texture::TeleportBlock => 20,
            Texture::TeleportHalf => 21,
            Texture::Fish => 22,
            Texture::Tree => 23,
            Texture::Bush => 24,
            Texture::Rock => 25,
            Texture::Fire => 26,
            Texture::Garbage => 27,
            Texture::Coin => 28,
            Texture::Bin => 29,
            Texture::Crate => 30,
            Texture::Market => 31,
            Texture::Bank => 32,
            Texture::Building => 33,
            Texture::Scarecrow => 34,
            Texture::JollyBlock => 35,
            Texture::Player => 36,
        }
    }

    /// Whether this is one of the terrain sprites.
    pub open spec fn is_block(self) -> bool {
        self.spec_index() < BLOCK_COUNT
    }

    /// Whether this is one of the content sprites.
    pub open spec fn is_content(self) -> bool {
        BLOCK_COUNT <= self.spec_index() < BLOCK_COUNT + CONTENT_COUNT
    }

    /// The sprite of a tile.
    pub fn from_tile(tile: &Tile) -> (texture: Texture)
        ensures
            texture == tile_texture(*tile),
            texture.is_block(),
            texture == (if is_low(tile.elevation) {
                texture_at(block_of(tile.tile_type).spec_index() + 1)
            } else {
                block_of(tile.tile_type)
            }),
    {
        match tile.tile_type {
            TileType::Sand => {
                if tile.elevation < HIGH_ELEVATION {
                    Texture::SandHalf
                } else {
                    Texture::SandBlock
                }
            },
            TileType::Hill => {
                if tile.elevation < HIGH_ELEVATION {
                    Texture::HillHalf
                } else {
                    Texture::HillBlock
                }
            },
            TileType::Snow => {
                if tile.elevation < HIGH_ELEVATION {
                    Texture::SnowHalf
                } else {
                    Texture::SnowBlock
                }
            },
            TileType::Lava => {
                if tile.elevation < HIGH_ELEVATION {
                    Texture::LavaHalf
                } else {
                    Texture::LavaBlock
                }
            },
            TileType::Wall => {
                if tile.elevation < HIGH_ELEVATION {
                    Texture::WallHalf
                } else {
                    Texture::WallBlock
                }
            },
            TileType::Grass => {
                if tile.elevation < HIGH_ELEVATION {
                    Texture::GrassHalf
                } else {
                    Texture::GrassBlock
                }
            },
            TileType::Street => {
                if tile.elevation < HIGH_ELEVATION {
                    Texture::StreetHalf
                } else {
                    Texture::StreetBlock
                }
            },
            TileType::Mountain => {
                if tile.elevation < HIGH_ELEVATION {
                    Texture::MountainHalf
                } else {
                    Texture::MountainBlock
                }
            },
            TileType::DeepWater => {
                if tile.elevation < HIGH_ELEVATION {
                    Texture::DeepWaterHalf
                } else {
                    Texture::DeepWaterBlock
                }
            },
            TileType::ShallowWater => {
                if tile.elevation < HIGH_ELEVATION {
                    Texture::ShallowWaterHalf
                } else {
                    Texture::ShallowWaterBlock
                }
            },
            TileType::Teleport => {
                if tile.elevation < HIGH_ELEVATION {
                    Texture::TeleportHalf
                } else {
                    Texture::TeleportBlock
                }
            },
        }
    }

    /// The sprite of a content; `None` for a content that is not drawn.
    pub fn from_content(content: &Content) -> (texture: Option<Texture>)
        ensures
            texture == content_texture(*content),
            texture matches Some(t) ==> t.is_content(),
            texture is None <==> (*content == Content::Nothing || *content == Content::Water),
    {
        match content {
            Content::Nothing => None,
            Content::Fish => Some(Texture::Fish),
            Content::Tree => Some(Texture::Tree),
            Content::Rock => Some(Texture::Rock),
            Content::Bush => Some(Texture::Bush),
            Content::Fire => Some(Texture::Fire),
            Content::Garbage => Some(Texture::Garbage),
            Content::Coin => Some(Texture::Coin),
            Content::Bin => Some(Texture::Bin),
            Content::Crate => Some(Texture::Crate),
            Content::Market => Some(Texture::Market),
            Content::Bank => Some(Texture::Bank),
            Content::Building => Some(Texture::Building),
            Content::Scarecrow => Some(Texture::Scarecrow),
            Content::JollyBlock => Some(Texture::JollyBlock),
            _ => None,
        }
    }

    /// The terrain sprites, each at its own position of the sprite table.
    pub fn get_blocks() -> (blocks: Vec<Texture>)
        ensures
            blocks@.len() == BLOCK_COUNT,
            forall|i: int| 0 <= i < BLOCK_COUNT ==> #[trigger] blocks@[i] == texture_at(i),
            forall|i: int| 0 <= i < BLOCK_COUNT ==> (#[trigger] blocks@[i]).spec_index() == i,
            forall|t: Texture| t.is_block() <==> blocks@.contains(t),
    {
        let blocks = vec![
            Texture::SandBlock,
            Texture::SandHalf,
            Texture::HillBlock,
            Texture::HillHalf,
            Texture::SnowBlock,
            Texture::SnowHalf,
            Texture::LavaBlock,
            Texture::LavaHalf,
            Texture::WallBlock,
            Texture::WallHalf,
            Texture::GrassBlock,
            Texture::GrassHalf,
            Texture::StreetBlock,
            Texture::StreetHalf,
            Texture::MountainBlock,
            Texture::MountainHalf,
            Texture::DeepWaterBlock,
            Texture::DeepWaterHalf,
            Texture::ShallowWaterBlock,
            Texture::ShallowWaterHalf,
            Texture::TeleportBlock,
            Texture::TeleportHalf,
        ];
        proof {
            assert forall|t: Texture| t.is_block() implies blocks@.contains(t) by {
                assert(blocks@[t.spec_index()] == t);
            }
        }
        blocks
    }

    /// The content sprites, in the order of the sprite table.
    pub fn get_contents() -> (contents: Vec<Texture>)
        ensures
            contents@.len() == CONTENT_COUNT,
            forall|i: int|
                0 <= i < CONTENT_COUNT ==> #[trigger] contents@[i] == texture_at(BLOCK_COUNT + i),
            forall|i: int|
                0 <= i < CONTENT_COUNT ==> (#[trigger] contents@[i]).spec_index() == BLOCK_COUNT + i,
            forall|t: Texture| t.is_content() <==> contents@.contains(t),
    {
        let contents = vec![
            Texture::Fish,
            Texture::Tree,
            Texture::Bush,
            Texture::Rock,
            Texture::Fire,
            Texture::Garbage,
            Texture::Coin,
            Texture::Bin,
            Texture::Crate,
            Texture::Market,
            Texture::Bank,
            Texture::Building,
            Texture::Scarecrow,
            Texture::JollyBlock,
        ];
        proof {
            assert forall|t: Texture| t.is_content() implies contents@.contains(t) by {
                assert(contents@[t.spec_index() - BLOCK_COUNT] == t);
            }
        }
        contents
    }

    /// The position of this sprite in the sprite table.
    pub fn index(&self) -> (index: usize)
        ensures
            index == self.spec_index(),
            index < TEXTURE_COUNT,
            texture_at(index as int) == *self,
    {
        match self {
            Texture::SandBlock => 0,
            Texture::SandHalf => 1,
            Texture::HillBlock => 2,
            Texture::HillHalf => 3,
            Texture::SnowBlock => 4,
            Texture::SnowHalf => 5,
            Texture::LavaBlock => 6,
            Texture::LavaHalf => 7,
            Texture::WallBlock => 8,
            Texture::WallHalf => 9,
            Texture::GrassBlock => 10,
            Texture::GrassHalf => 11,
            Texture::StreetBlock => 12,
            Texture::StreetHalf => 13,
            Texture::MountainBlock => 14,
            Texture::MountainHalf => 15,
            Texture::DeepWaterBlock => 16,
            Texture::DeepWaterHalf => 17,
            Texture::ShallowWaterBlock => 18,
            Texture::ShallowWaterHalf => 19,
            Texture::TeleportBlock => 20,
            Texture::TeleportHalf => 21,
            Texture::Fish => 22,
            Texture::Tree => 23,
            Texture::Bush => 24,
            Texture::Rock => 25,
            Texture::Fire => 26,
            Texture::Garbage => 27,
            Texture::Coin => 28,
            Texture::Bin => 29,
            Texture::Crate => 30,
            Texture::Market => 31,
            Texture::Bank => 32,
            Texture::Building => 33,
            Texture::Scarecrow => 34,
            Texture::JollyBlock => 35,
            Texture::Player => 36,
        }
    }

    /// The path of this sprite's image among the assets.
    pub fn get_image_path(&self) -> (path: &'static str)
        ensures
            path@ == image_path(*self),
    {
        proof {
            reveal_strlit("/blocks/");
            reveal_strlit("/halfs/");
            reveal_strlit("/contents/");
            reveal_strlit("/player/");
            reveal_strlit(".png");
            reveal_strlit("sand");
            reveal_strlit("hill");
            reveal_strlit("snow");
            reveal_strlit("lava");
            reveal_strlit("wall");
            reveal_strlit("grass");
            reveal_strlit("street");
            reveal_strlit("mountain");
            reveal_strlit("deepwater");
            reveal_strlit("shallowwater");
            reveal_strlit("teleport");
            reveal_strlit("fish");
            reveal_strlit("tree");
            reveal_strlit("bush");
            reveal_strlit("rock");
            reveal_strlit("fire");
            reveal_strlit("garbage");
            reveal_strlit("coin");
            reveal_strlit("bin");
            reveal_strlit("crate");
            reveal_strlit("market");
            reveal_strlit("bank");
            reveal_strlit("building");
            reveal_strlit("scarecrow");
            reveal_strlit("jollyblock");
            reveal_strlit("robot");
        }
        match self {
            Texture::SandBlock => {
                proof {
                    reveal_strlit("/blocks/sand.png");
                    assert("/blocks/sand.png"@ =~= image_path(*self));
                }
                "/blocks/sand.png"
            },
            Texture::SandHalf => {
                proof {
                    reveal_strlit("/halfs/sand.png");
                    assert("/halfs/sand.png"@ =~= image_path(*self));
                }
                "/halfs/sand.png"
            },
            Texture::HillBlock => {
                proof {
                    reveal_strlit("/blocks/hill.png");
                    assert("/blocks/hill.png"@ =~= image_path(*self));
                }
                "/blocks/hill.png"
            },
            Texture::HillHalf => {
                proof {
                    reveal_strlit("/halfs/hill.png");
                    assert("/halfs/hill.png"@ =~= image_path(*self));
                }
                "/halfs/hill.png"
            },
            Texture::SnowBlock => {
                proof {
                    reveal_strlit("/blocks/snow.png");
                    assert("/blocks/snow.png"@ =~= image_path(*self));
                }
                "/blocks/snow.png"
            },
            Texture::SnowHalf => {
                proof {
                    reveal_strlit("/halfs/snow.png");
                    assert("/halfs/snow.png"@ =~= image_path(*self));
                }
                "/halfs/snow.png"
            },
            Texture::LavaBlock => {
                proof {
                    reveal_strlit("/blocks/lava.png");
                    assert("/blocks/lava.png"@ =~= image_path(*self));
                }
                "/blocks/lava.png"
            },
            Texture::LavaHalf => {
                proof {
                    reveal_strlit("/halfs/lava.png");
                    assert("/halfs/lava.png"@ =~= image_path(*self));
                }
                "/halfs/lava.png"
            },
            Texture::WallBlock => {
                proof {
                    reveal_strlit("/blocks/wall.png");
                    assert("/blocks/wall.png"@ =~= image_path(*self));
                }
                "/blocks/wall.png"
            },
            Texture::WallHalf => {
                proof {
                    reveal_strlit("/halfs/wall.png");
                    assert("/halfs/wall.png"@ =~= image_path(*self));
                }
                "/halfs/wall.png"
            },
            Texture::GrassBlock => {
                proof {
                    reveal_strlit("/blocks/grass.png");
                    assert("/blocks/grass.png"@ =~= image_path(*self));
                }
                "/blocks/grass.png"
            },
            Texture::GrassHalf => {
                proof {
                    reveal_strlit("/halfs/grass.png");
                    assert("/halfs/grass.png"@ =~= image_path(*self));
                }
                "/halfs/grass.png"
            },
            Texture::StreetBlock => {
                proof {
                    reveal_strlit("/blocks/street.png");
                    assert("/blocks/street.png"@ =~= image_path(*self));
                }
                "/blocks/street.png"
            },
            Texture::StreetHalf => {
                proof {
                    reveal_strlit("/halfs/street.png");
                    assert("/halfs/street.png"@ =~= image_path(*self));
                }
                "/halfs/street.png"
            },
            Texture::MountainBlock => {
                proof {
                    reveal_strlit("/blocks/mountain.png");
                    assert("/blocks/mountain.png"@ =~= image_path(*self));
                }
                "/blocks/mountain.png"
            },
            Texture::MountainHalf => {
                proof {
                    reveal_strlit("/halfs/mountain.png");
                    assert("/halfs/mountain.png"@ =~= image_path(*self));
                }
                "/halfs/mountain.png"
            },
            Texture::DeepWaterBlock => {
                proof {
                    reveal_strlit("/blocks/deepwater.png");
                    assert("/blocks/deepwater.png"@ =~= image_path(*self));
                }
                "/blocks/deepwater.png"
            },
            Texture::DeepWaterHalf => {
                proof {
                    reveal_strlit("/halfs/deepwater.png");
                    assert("/halfs/deepwater.png"@ =~= image_path(*self));
                }
                "/halfs/deepwater.png"
            },
            Texture::ShallowWaterBlock => {
                proof {
                    reveal_strlit("/blocks/shallowwater.png");
                    assert("/blocks/shallowwater.png"@ =~= image_path(*self));
                }
                "/blocks/shallowwater.png"
            },
            Texture::ShallowWaterHalf => {
                proof {
                    reveal_strlit("/halfs/shallowwater.png");
                    assert("/halfs/shallowwater.png"@ =~= image_path(*self));
                }
                "/halfs/shallowwater.png"
            },
            Texture::TeleportBlock => {
                proof {
                    reveal_strlit("/blocks/teleport.png");
                    assert("/blocks/teleport.png"@ =~= image_path(*self));
                }
                "/blocks/teleport.png"
            },
            Texture::TeleportHalf => {
                proof {
                    reveal_strlit("/halfs/teleport.png");
                    assert("/halfs/teleport.png"@ =~= image_path(*self));
                }
                "/halfs/teleport.png"
            },
            Texture::Fish => {
                proof {
                    reveal_strlit("/contents/fish.png");
                    assert("/contents/fish.png"@ =~= image_path(*self));
                }
                "/contents/fish.png"
            },
            Texture::Tree => {
                proof {
                    reveal_strlit("/contents/tree.png");
                    assert("/contents/tree.png"@ =~= image_path(*self));
                }
                "/contents/tree.png"
            },
            Texture::Bush => {
                proof {
                    reveal_strlit("/contents/bush.png");
                    assert("/contents/bush.png"@ =~= image_path(*self));
                }
                "/contents/bush.png"
            },
            Texture::Rock => {
                proof {
                    reveal_strlit("/contents/rock.png");
                    assert("/contents/rock.png"@ =~= image_path(*self));
                }
                "/contents/rock.png"
            },
            Texture::Fire => {
                proof {
                    reveal_strlit("/contents/fire.png");
                    assert("/contents/fire.png"@ =~= image_path(*self));
                }
                "/contents/fire.png"
            },
            Texture::Garbage => {
                proof {
                    reveal_strlit("/contents/garbage.png");
                    assert("/contents/garbage.png"@ =~= image_path(*self));
                }
                "/contents/garbage.png"
            },
            Texture::Coin => {
                proof {
                    reveal_strlit("/contents/coin.png");
                    assert("/contents/coin.png"@ =~= image_path(*self));
                }
                "/contents/coin.png"
            },
            Texture::Bin => {
                proof {
                    reveal_strlit("/contents/bin.png");
                    assert("/contents/bin.png"@ =~= image_path(*self));
                }
                "/contents/bin.png"
            },
            Texture::Crate => {
                proof {
                    reveal_strlit("/contents/crate.png");
                    assert("/contents/crate.png"@ =~= image_path(*self));
                }
                "/contents/crate.png"
            },
            Texture::Market => {
                proof {
                    reveal_strlit("/contents/market.png");
                    assert("/contents/market.png"@ =~= image_path(*self));
                }
                "/contents/market.png"
            },
            Texture::Bank => {
                proof {
                    reveal_strlit("/contents/bank.png");
                    assert("/contents/bank.png"@ =~= image_path(*self));
                }
                "/contents/bank.png"
            },
            Texture::Building => {
                proof {
                    reveal_strlit("/contents/building.png");
                    assert("/contents/building.png"@ =~= image_path(*self));
                }
                "/contents/building.png"
            },
            Texture::Scarecrow => {
                proof {
                    reveal_strlit("/contents/scarecrow.png");
                    assert("/contents/scarecrow.png"@ =~= image_path(*self));
                }
                "/contents/scarecrow.png"
            },
            Texture::JollyBlock => {
                proof {
                    reveal_strlit("/contents/jollyblock.png");
                    assert("/contents/jollyblock.png"@ =~= image_path(*self));
                }
                "/contents/jollyblock.png"
            },
            Texture::Player => {
                proof {
                    reveal_strlit("/player/robot.png");
                    assert("/player/robot.png"@ =~= image_path(*self));
                }
                "/player/robot.png"
            },
        }
    }

    /// Width of a sprite, in pixels.
    pub fn width() -> (width: i64)
        ensures
            width == SPRITE_SIZE,
    {
        SPRITE_SIZE
    }

    /// Height of a sprite, in pixels.
    pub fn height() -> (height: i64)
        ensures
            height == SPRITE_SIZE,
    {
        SPRITE_SIZE
    }
}

/// The sprite table is a bijection between sprites and the positions below
/// `TEXTURE_COUNT`: two sprites with one position are one sprite.
pub proof fn lemma_index_is_injective(a: Texture, b: Texture)
    ensures
        0 <= a.spec_index() < TEXTURE_COUNT,
        texture_at(a.spec_index()) == a,
        a.spec_index() == b.spec_index() ==> a == b,
{
}

} // verus!
