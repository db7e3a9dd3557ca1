use luola2::texstore::{TextureStore, TextureStoreError};
use luola2::texture::TexAlt;

fn store() -> TextureStore<&'static str> {
    let mut s = TextureStore::new();
    s.add_texture("ship".to_string(), "ship.png", 4, true, false).unwrap();
    s.add_texture("bullet".to_string(), "bullet.png", 1, false, true).unwrap();
    s
}

#[test]
fn added_textures_are_found_by_name() {
    let s = store();
    assert_eq!(s.count(), 2);
    let ship = s.find_texture("ship").unwrap();
    assert_eq!(ship.offset(), 0);
    assert_eq!(ship.frames(), 4);
    assert!(ship.needs_rotation());
    assert!(!ship.flippable());
    let bullet = s.find_texture("bullet").unwrap();
    assert_eq!(bullet.offset(), 1);
    assert!(bullet.flippable());
    assert_eq!(*s.get_texture(bullet), "bullet.png");
    assert_eq!(s.find_texture("rock"), Err(TextureStoreError::NotFound));
}

#[test]
fn names_are_unique() {
    let mut s = store();
    assert_eq!(
        s.add_texture("ship".to_string(), "other.png", 1, false, false),
        Err(TextureStoreError::AlreadyAdded)
    );
    assert_eq!(s.count(), 2);
    assert_eq!(*s.get_texture(s.find_texture("ship").unwrap()), "ship.png");
}

#[test]
fn alternatives_are_set_once_and_fall_back_to_main() {
    let mut s = store();
    let ship = s.find_texture("ship").unwrap();
    assert_eq!(s.get_texture_alt(ship, TexAlt::Decal), None);
    assert_eq!(*s.get_texture_alt_fallback(ship, TexAlt::Decal), "ship.png");
    assert_eq!(s.add_texture_alt(ship, TexAlt::Decal, "ship-decal.png"), Ok(()));
    assert_eq!(s.get_texture_alt(ship, TexAlt::Decal), Some(&"ship-decal.png"));
    assert_eq!(*s.get_texture_alt_fallback(ship, TexAlt::Decal), "ship-decal.png");
    assert_eq!(
        s.add_texture_alt(ship, TexAlt::Decal, "again.png"),
        Err(TextureStoreError::AltAlreadySet)
    );
    assert_eq!(
        s.add_texture_alt(ship, TexAlt::Main, "main.png"),
        Err(TextureStoreError::MainAlreadyAdded)
    );
    assert_eq!(s.get_texture_alt(ship, TexAlt::Main), Some(&"ship.png"));
    assert_eq!(*s.get_texture_alt_fallback(ship, TexAlt::Damage), "ship.png");
}
