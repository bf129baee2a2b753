use vstd::prelude::*;

verus! {

/// Symbolic name of every image, animation, state machine and sound of the game.
#[derive(Clone, Copy, Debug, PartialEq, Eq, Structural)]
pub enum AssetTag {
    DinoRunL,
    DinoRunR,
    DinoDead,
    DinoIdle,
    DinoAnimRun,
    DinoAnimJump,
    DinoAnimDead,
    DinoStateMachine,
    CactusSmall1,
    CactusSmall2,
    CactusSmall3,
    CactusBig1,
    CactusBig2,
    CactusBig3,
    Ground1,
    Ground2,
    Ptero1,
    Ptero2,
    PteroAnim,
    Cloud,
    RestartButton,
    JumpSound,
    DeathSound,
    PointSound,
    Perceptron,
}

pub open spec fn cactus_tag_seq() -> Seq<AssetTag> {
    seq![
        AssetTag::CactusSmall1,
        AssetTag::CactusSmall2,
        AssetTag::CactusSmall3,
        AssetTag::CactusBig1,
        AssetTag::CactusBig2,
        AssetTag::CactusBig3,
    ]
}

impl AssetTag {
    /// The frames of an animation, as image tags; `None` for a tag that names no animation.
    pub open spec fn anim_frames_of(self) -> Option<Seq<AssetTag>> {
        match self {
            AssetTag::DinoAnimRun => Some(seq![AssetTag::DinoRunL, AssetTag::DinoRunR]),
            AssetTag::DinoAnimJump => Some(seq![AssetTag::DinoIdle]),
            AssetTag::DinoAnimDead => Some(seq![AssetTag::DinoDead]),
            AssetTag::PteroAnim => Some(seq![AssetTag::Ptero1, AssetTag::Ptero2]),
            _ => None,
        }
    }

    /// The frame rate of an animation; `None` for a tag that names no animation.
    pub open spec fn anim_fps_of(self) -> Option<u8> {
        match self {
            AssetTag::DinoAnimRun => Some(8u8),
            AssetTag::DinoAnimJump => Some(1u8),
            AssetTag::DinoAnimDead => Some(1u8),
            AssetTag::PteroAnim => Some(4u8),
            _ => None,
        }
    }

    pub open spec fn is_anim(self) -> bool {
        self.anim_frames_of() is Some
    }

    pub fn cactus_tags() -> (r: Vec<AssetTag>)
        ensures
            r@ == cactus_tag_seq(),
    {
        let r = vec![
            AssetTag::CactusSmall1,
            AssetTag::CactusSmall2,
            AssetTag::CactusSmall3,
            AssetTag::CactusBig1,
            AssetTag::CactusBig2,
            AssetTag::CactusBig3,
        ];
        assert(r@ =~= cactus_tag_seq());
        r
    }

    pub fn get_anim_length(self) -> (r: Option<usize>)
        ensures
            r is Some <==> self.is_anim(),
            r is Some ==> r.unwrap() == self.anim_frames_of().unwrap().len(),
            r is Some ==> r.unwrap() > 0,
    {
        match self {
            AssetTag::DinoAnimRun => Some(2),
            AssetTag::DinoAnimJump => Some(1),
            AssetTag::DinoAnimDead => Some(1),
            AssetTag::PteroAnim => Some(2),
            _ => None,
        }
    }

    pub fn get_anim_fps(self) -> (r: Option<u8>)
        ensures
            r == self.anim_fps_of(),
            r is Some <==> self.is_anim(),
            r is Some ==> r.unwrap() > 0,
    {
        match self {
            AssetTag::DinoAnimRun => Some(8),
            AssetTag::DinoAnimJump => Some(1),
            AssetTag::DinoAnimDead => Some(1),
            AssetTag::PteroAnim => Some(4),
            _ => None,
        }
    }

    /// The image shown at `frame` of this animation.
    pub fn get_anim_frame(self, frame: usize) -> (r: Option<AssetTag>)
        ensures
            r is Some <==> (self.is_anim() && frame < self.anim_frames_of().unwrap().len()),
            r is Some ==> r.unwrap() == self.anim_frames_of().unwrap()[frame as int],
    {
        match self {
            AssetTag::DinoAnimRun => if frame == 0 {
                Some(AssetTag::DinoRunL)
            } else if frame == 1 {
                Some(AssetTag::DinoRunR)
            } else {
                None
            },
            AssetTag::DinoAnimJump => if frame == 0 {
                Some(AssetTag::DinoIdle)
            } else {
                None
            },
            AssetTag::DinoAnimDead => if frame == 0 {
                Some(AssetTag::DinoDead)
            } else {
                None
            },
            AssetTag::PteroAnim => if frame == 0 {
                Some(AssetTag::Ptero1)
            } else if frame == 1 {
                Some(AssetTag::Ptero2)
            } else {
                None
            },
            _ => None,
        }
    }
}

} // verus!
