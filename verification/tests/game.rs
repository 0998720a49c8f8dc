use hypernovae::config::Config;
use hypernovae::data::datapack::Datapack;
use hypernovae::game::data::{always_true, one, BlockPosition};
use hypernovae::game::{
    ChatOptions, Hand, PlayerBuilder, Profile, ProfileProperty, SkinOptions,
};
use hypernovae::data::Identifier;
use hypernovae::net::data::Encode;

#[test]
fn builder_needs_a_profile() {
    assert!(PlayerBuilder::new().build().is_none());
    let p = PlayerBuilder::new()
        .skin_options(SkinOptions::empty())
        .main_hand(Hand::Left)
        .profile(Profile::new(1, String::from("x"), vec![]))
        .build();
    assert!(p.is_some());
}

#[test]
fn flag_sets() {
    assert_eq!(SkinOptions::all().bits(), 0x7F);
    assert!(SkinOptions::from_bits(0x80).is_none());
    assert_eq!(SkinOptions::from_bits(SkinOptions::CAPE | SkinOptions::HAT).unwrap().bits(), 0x41);
    let c = ChatOptions::empty().union(ChatOptions::from_bits_truncate(ChatOptions::ENABLED));
    assert_eq!(c.union(ChatOptions::from_bits_truncate(0xF4)).bits(), 0x05);
    assert!(ChatOptions::from_bits(0x10).is_none());
}

#[test]
fn block_position_word() {
    let mut out = Vec::new();
    BlockPosition { x: 1, z: 2, y: 3 }.generate(&mut out);
    let word: u64 = (1u64 << 38) | (2u64 << 12) | 3;
    assert_eq!(out, word.to_be_bytes().to_vec());
    let mut out = Vec::new();
    BlockPosition { x: -1, z: -1, y: -1 }.generate(&mut out);
    assert_eq!(out, vec![0xFF; 8]);
}

#[test]
fn profile_property_with_signature() {
    let prop = ProfileProperty {
        name: String::from("n"),
        value: String::from("v"),
        signature: Some(String::from("s")),
    };
    let mut out = Vec::new();
    prop.generate(&mut out);
    assert_eq!(out, vec![1, b'n', 1, b'v', 1, 1, b's']);
}

#[test]
fn defaults() {
    let c = Config::default();
    assert_eq!(c.address, [127, 0, 0, 1]);
    assert_eq!(c.port, 25565);
    assert!(always_true());
    assert_eq!(one(), 1);
    let _ = Datapack::from_dir(Identifier::new("a", "b"), String::from("1"));
}
