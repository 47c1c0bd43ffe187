use macroquad::texture::Texture2D;
use miniquad::{RawId, TextureId};
use xp_macroquad::assets::{EnemyKind, Textures};

fn texture(id: u32) -> Texture2D {
    Texture2D::from_miniquad_texture(TextureId::from_raw_id(RawId::OpenGl(id)))
}

#[test]
fn size_ranges() {
    assert_eq!(EnemyKind::Small.size_range(), (16, 32));
    assert_eq!(EnemyKind::Medium.size_range(), (32, 48));
    assert_eq!(EnemyKind::Big.size_range(), (48, 64));
}

#[test]
fn frame_sizes() {
    assert_eq!(EnemyKind::Small.frame_size(), (17, 16));
    assert_eq!(EnemyKind::Medium.frame_size(), (32, 16));
    assert_eq!(EnemyKind::Big.frame_size(), (32, 32));
}

#[test]
fn enemy_texture_by_kind() {
    let t = Textures {
        ship: texture(1),
        enemy_small: texture(2),
        enemy_medium: texture(3),
        enemy_big: texture(4),
        laser: texture(5),
    };
    assert_eq!(*t.enemy(EnemyKind::Small), texture(2));
    assert_eq!(*t.enemy(EnemyKind::Medium), texture(3));
    assert_eq!(*t.enemy(EnemyKind::Big), texture(4));
    assert!(std::ptr::eq(t.enemy(EnemyKind::Big), &t.enemy_big));
}
