use vstd::prelude::*;
use macroquad::texture::Texture2D;

verus! {

/// The three kinds of enemy ship.
#[derive(Debug, Clone, Copy, PartialEq, Eq, Structural)]
pub enum EnemyKind {
    Small,
    Medium,
    Big,
}

impl EnemyKind {
    /// Drawn height range `(min, max)`, in screen pixels.
    pub fn size_range(self) -> (r: (u32, u32))
        ensures
            r == (match self {
                EnemyKind::Small => (16u32, 32u32),
                EnemyKind::Medium => (32u32, 48u32),
                EnemyKind::Big => (48u32, 64u32),
            }),
    {
        match self {
            EnemyKind::Small => (16, 32),
            EnemyKind::Medium => (32, 48),
            EnemyKind::Big => (48, 64),
        }
    }

    /// Size `(width, height)` of one animation frame in the kind's sprite
    /// sheet, in pixels: each sheet holds two frames side by side.
    pub fn frame_size(self) -> (r: (u32, u32))
        ensures
            r == (match self {
                EnemyKind::Small => (17u32, 16u32),
                EnemyKind::Medium => (32u32, 16u32),
                EnemyKind::Big => (32u32, 32u32),
            }),
    {
        match self {
            EnemyKind::Small => (34 / 2, 16),
            EnemyKind::Medium => (64 / 2, 16),
            EnemyKind::Big => (64 / 2, 32),
        }
    }
}

/// The texture handle of macroquad, held opaque.
#[verifier::external_type_specification]
#[verifier::external_body]
pub struct ExTexture2D(Texture2D);

/// The textures the game draws with.
#[allow(unused)]
#[derive(Debug)]
pub struct Textures {
    pub ship: Texture2D,
    pub enemy_small: Texture2D,
    pub enemy_medium: Texture2D,
    pub enemy_big: Texture2D,
    pub laser: Texture2D,
}

impl Textures {
    /// The texture of the given kind of enemy.
    pub fn enemy(&self, enemy: EnemyKind) -> (r: &Texture2D)
        ensures
            *r == (match enemy {
                EnemyKind::Small => self.enemy_small,
                EnemyKind::Medium => self.enemy_medium,
                EnemyKind::Big => self.enemy_big,
            }),
    {
        match enemy {
            EnemyKind::Small => &self.enemy_small,
            EnemyKind::Medium => &self.enemy_medium,
            EnemyKind::Big => &self.enemy_big,
        }
    }
}

} // verus!
