use vstd::prelude::*;

verus! {

/// The closed set of assets that the renderer knows how to draw.
#[derive(Copy, Clone, Debug, PartialEq, Eq, Structural, PartialOrd, Ord)]
pub enum AssetId {
    Grunt,
    Missile,
    SmallMissile,
    Tower,
    Explosion,
}

/// The small integer under which an asset travels to the renderer.
pub open spec fn asset_code(asset_id: AssetId) -> u8 {
    match asset_id {
        AssetId::Grunt => 0,
        AssetId::Missile => 1,
        AssetId::SmallMissile => 2,
        AssetId::Tower => 3,
        AssetId::Explosion => 4,
    }
}

/// Maps an asset to its integer code, 0 to 4 in declaration order.
pub fn assetid_as_u8(asset_id: AssetId) -> (r: u8)
    ensures
        r == asset_code(asset_id),
        r <= 4,
{
    match asset_id {
        AssetId::Grunt => 0,
        AssetId::Missile => 1,
        AssetId::SmallMissile => 2,
        AssetId::Tower => 3,
        AssetId::Explosion => 4,
    }
}

/// Marks an entity as renderable with the given asset.
#[derive(Copy, Clone, Debug, PartialEq, Eq, Structural)]
pub struct Sprite {
    pub asset_id: AssetId,
}

} // verus!
