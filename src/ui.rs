use vstd::prelude::*;
use crate::assets::AssetTag;
use crate::collision::BoxCollider;
use crate::vec2::Vec2;

verus! {

/// A clickable image at a fixed world position; hidden while inactive.
#[derive(Clone, Copy, Debug, PartialEq, Eq, Structural)]
pub struct UIButton {
    pub pos: Vec2,
    pub active: bool,
    pub asset_tag: AssetTag,
    pub col: BoxCollider,
}

impl UIButton {
    /// A visible button whose hit box covers an image of `width` by `height` units.
    pub fn new(image: AssetTag, width: i64, height: i64, pos: Vec2) -> (r: UIButton)
        requires
            0 <= width,
            0 <= height,
        ensures
            r.pos == pos,
            r.active,
            r.asset_tag == image,
            r.col.half() == (Vec2 { x: (width / 2) as i64, y: (height / 2) as i64 }),
            r.col.offs() == (Vec2 { x: 0, y: 0 }),
    {
        UIButton {
            pos,
            active: true,
            asset_tag: image,
            col: BoxCollider::new(Vec2::new(width / 2, height / 2)),
        }
    }

    pub fn activate(&mut self)
        ensures
            *final(self) == (UIButton { active: true, ..*old(self) }),
    {
        self.active = true;
    }

    pub fn deactivate(&mut self)
        ensures
            *final(self) == (UIButton { active: false, ..*old(self) }),
    {
        self.active = false;
    }
}

} // verus!
