use vstd::prelude::*;
use crate::assets::AssetTag;
use crate::vec2::Vec2;

verus! {

/// A still image drawn at the owner's position. The offset is the anchor
/// inside the image, in thousandths of its width and height.
#[derive(Clone, Copy, Debug, PartialEq, Eq, Structural)]
pub struct Sprite {
    pub asset_tag: AssetTag,
    pub offset: Vec2,
}

impl Sprite {
    /// A sprite anchored at the middle of its image.
    pub fn new(asset_tag: AssetTag) -> (r: Sprite)
        ensures
            r.asset_tag == asset_tag,
            r.offset == (Vec2 { x: 500, y: 500 }),
    {
        Sprite { asset_tag, offset: Vec2::new(500, 500) }
    }

    pub fn set_offset(&mut self, offset: Vec2)
        ensures
            final(self).offset == offset,
            final(self).asset_tag == old(self).asset_tag,
    {
        self.offset = offset;
    }

    pub fn set_tag(&mut self, tag: AssetTag)
        ensures
            final(self).asset_tag == tag,
            final(self).offset == old(self).offset,
    {
        self.asset_tag = tag;
    }
}

} // verus!
