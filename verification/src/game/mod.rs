use crate::net::data::wire::{array_bytes, optional_bytes, option_view, views};
use crate::net::data::{
    Encode, be_bytes, generate_array, generate_be, generate_optional, generate_string,
    string_bytes,
};
use vstd::prelude::*;
use vstd::string::StringExecFns;

pub use crate::data::Identifier;
pub use crate::data::datapack::DatapackVersion;

/// Positions and other game data
pub mod data;

verus! {

/// Which parts of a player's skin are shown: a set of seven flags.
#[derive(Debug, Clone, Copy, PartialEq, Eq, Structural)]
pub struct SkinOptions {
    bits: u8,
}

/// The chat settings of a client: a set of four flags.
#[derive(Debug, Clone, Copy, PartialEq, Eq, Structural)]
pub struct ChatOptions {
    bits: u8,
}

/// A player's main hand.
#[derive(Debug, Clone, Copy, PartialEq, Eq, Structural)]
pub enum Hand {
    Left,
    Right,
}

/// How many particles a client shows.
#[derive(Debug, Clone, Copy, PartialEq, Eq, Structural)]
pub enum ParticleOptions {
    All,
    Decreased,
    Minimal,
}

impl View for SkinOptions {
    type V = u8;

    closed spec fn view(&self) -> u8 {
        self.bits
    }
}

impl View for ChatOptions {
    type V = u8;

    closed spec fn view(&self) -> u8 {
        self.bits
    }
}

impl SkinOptions {
    /// The flag bits, one per skin part.
    pub const CAPE: u8 = 0x01;
    pub const JACKET: u8 = 0x02;
    pub const LEFT_SLEEVE: u8 = 0x04;
    pub const RIGHT_SLEEVE: u8 = 0x08;
    pub const LEFT_LEG: u8 = 0x10;
    pub const RIGHT_LEG: u8 = 0x20;
    pub const HAT: u8 = 0x40;

    /// Every flag set.
    pub fn all() -> (r: Self)
        ensures
            r@ == 0x7f,
    {
        SkinOptions { bits: 0x7f }
    }

    /// No flag set.
    pub fn empty() -> (r: Self)
        ensures
            r@ == 0,
    {
        SkinOptions { bits: 0 }
    }

    /// The flags in `bits`, if it sets no bit outside the seven flags.
    pub fn from_bits(bits: u8) -> (r: Option<Self>)
        ensures
            r is Some <==> bits < 0x80,
            r matches Some(o) ==> o@ == bits,
    {
        if bits & 0x80 == 0 {
            assert(bits & 0x80 == 0 <==> bits < 0x80) by (bit_vector);
            Some(SkinOptions { bits })
        } else {
            assert(bits & 0x80 != 0 ==> bits >= 0x80) by (bit_vector);
            None
        }
    }

    /// The flags as a byte.
    pub fn bits(&self) -> (r: u8)
        ensures
            r == self@,
    {
        self.bits
    }
}

impl ChatOptions {
    /// The flag bits, one per chat setting.
    pub const ENABLED: u8 = 0x01;
    pub const COMMANDS_ONLY: u8 = 0x02;
    pub const COLORS_ENABLED: u8 = 0x04;
    pub const FILTERING_ENABLED: u8 = 0x08;

    /// No flag set.
    pub fn empty() -> (r: Self)
        ensures
            r@ == 0,
    {
        ChatOptions { bits: 0 }
    }

    /// The flags in `bits`, if it sets no bit outside the four flags.
    pub fn from_bits(bits: u8) -> (r: Option<Self>)
        ensures
            r is Some <==> bits < 0x10,
            r matches Some(o) ==> o@ == bits,
    {
        if bits & 0xf0 == 0 {
            assert(bits & 0xf0 == 0 <==> bits < 0x10) by (bit_vector);
            Some(ChatOptions { bits })
        } else {
            assert(bits & 0xf0 != 0 ==> bits >= 0x10) by (bit_vector);
            None
        }
    }

    /// The flags among the low four bits of `bits`.
    pub fn from_bits_truncate(bits: u8) -> (r: Self)
        ensures
            r@ == bits & 0x0f,
    {
        ChatOptions { bits: bits & 0x0f }
    }

    /// The flags set in either.
    pub fn union(self, other: Self) -> (r: Self)
        ensures
            r@ == self@ | other@,
    {
        ChatOptions { bits: self.bits | other.bits }
    }

    /// The flags as a byte.
    pub fn bits(&self) -> (r: u8)
        ensures
            r == self@,
    {
        self.bits
    }
}

/// A player's profile: uuid, name and signed properties.
#[derive(Debug, Clone)]
pub struct Profile {
    uuid: u128,
    username: String,
    properties: Vec<ProfileProperty>,
}

/// One property of a profile, such as its skin texture.
#[derive(Debug, Clone)]
pub struct ProfileProperty {
    pub name: String,
    pub value: String,
    pub signature: Option<String>,
}

/// The mathematical value of a profile property.
pub struct ProfilePropertyView {
    pub name: Seq<char>,
    pub value: Seq<char>,
    pub signature: Option<Seq<char>>,
}

/// The mathematical value of a profile.
pub struct ProfileView {
    pub uuid: u128,
    pub username: Seq<char>,
    pub properties: Seq<ProfilePropertyView>,
}

impl View for ProfileProperty {
    type V = ProfilePropertyView;

    open spec fn view(&self) -> ProfilePropertyView {
        ProfilePropertyView {
            name: self.name@,
            value: self.value@,
            signature: match self.signature {
                Some(s) => Some(s@),
                None => None,
            },
        }
    }
}

impl View for Profile {
    type V = ProfileView;

    closed spec fn view(&self) -> ProfileView {
        ProfileView {
            uuid: self.uuid,
            username: self.username@,
            properties: views(self.properties),
        }
    }
}

/// The bytes of a profile property: name, value, and the optional signature.
pub open spec fn property_bytes(p: ProfilePropertyView) -> Seq<u8> {
    string_bytes(p.name) + string_bytes(p.value) + optional_bytes::<String>(p.signature)
}

/// The bytes of a profile: the uuid as 16 big-endian bytes, the name, then
/// the properties as an array.
pub open spec fn profile_bytes(p: ProfileView) -> Seq<u8> {
    be_bytes(p.uuid as nat, 16) + string_bytes(p.username) + array_bytes::<ProfileProperty>(
        p.properties,
    )
}

impl Encode for ProfileProperty {
    open spec fn spec_encode(v: ProfilePropertyView) -> Seq<u8> {
        property_bytes(v)
    }

    fn generate(&self, out: &mut Vec<u8>) {
        generate_string(self.name.as_str(), out);
        generate_string(self.value.as_str(), out);
        generate_optional(&self.signature, out);
        assert(option_view(self.signature) == self@.signature);
        assert(out@ =~= old(out)@ + property_bytes(self@));
    }
}

impl Encode for Profile {
    open spec fn spec_encode(v: ProfileView) -> Seq<u8> {
        profile_bytes(v)
    }

    fn generate(&self, out: &mut Vec<u8>) {
        generate_be(self.uuid, 16, out);
        generate_string(self.username.as_str(), out);
        generate_array(self.properties.as_slice(), out);
        assert(out@ =~= old(out)@ + profile_bytes(self@));
    }
}

impl Profile {
    /// A profile with the given uuid, name and properties.
    pub fn new(uuid: u128, username: String, properties: Vec<ProfileProperty>) -> (r: Self)
        ensures
            r@ == (ProfileView {
                uuid,
                username: username@,
                properties: views(properties),
            }),
    {
        Profile { uuid, username, properties }
    }
}

/// Collects a player's settings; `build` turns it into a player.
#[derive(Debug)]
pub struct PlayerBuilder {
    profile: Option<Profile>,
    skin_options: SkinOptions,
    main_hand: Hand,
    allow_server_listing: bool,
    locale: Option<String>,
    view_distance: Option<u8>,
    chat_options: ChatOptions,
    particle_options: ParticleOptions,
}

/// A player with all settings decided.
pub struct Player {
    profile: Profile,
    skin_options: SkinOptions,
    main_hand: Hand,
    allow_server_listing: bool,
    locale: String,
    view_distance: u8,
    chat_options: ChatOptions,
    particle_options: ParticleOptions,
}

/// The mathematical value of a player builder.
pub struct PlayerBuilderView {
    pub profile: Option<ProfileView>,
    pub skin_options: u8,
    pub main_hand: Hand,
    pub allow_server_listing: bool,
    pub locale: Option<Seq<char>>,
    pub view_distance: Option<u8>,
    pub chat_options: u8,
    pub particle_options: ParticleOptions,
}

/// The mathematical value of a player.
pub struct PlayerView {
    pub profile: ProfileView,
    pub skin_options: u8,
    pub main_hand: Hand,
    pub allow_server_listing: bool,
    pub locale: Seq<char>,
    pub view_distance: u8,
    pub chat_options: u8,
    pub particle_options: ParticleOptions,
}

impl View for PlayerBuilder {
    type V = PlayerBuilderView;

    closed spec fn view(&self) -> PlayerBuilderView {
        PlayerBuilderView {
            profile: match self.profile {
                Some(p) => Some(p@),
                None => None,
            },
            skin_options: self.skin_options@,
            main_hand: self.main_hand,
            allow_server_listing: self.allow_server_listing,
            locale: match self.locale {
                Some(l) => Some(l@),
                None => None,
            },
            view_distance: self.view_distance,
            chat_options: self.chat_options@,
            particle_options: self.particle_options,
        }
    }
}

impl View for Player {
    type V = PlayerView;

    closed spec fn view(&self) -> PlayerView {
        PlayerView {
            profile: self.profile@,
            skin_options: self.skin_options@,
            main_hand: self.main_hand,
            allow_server_listing: self.allow_server_listing,
            locale: self.locale@,
            view_distance: self.view_distance,
            chat_options: self.chat_options@,
            particle_options: self.particle_options,
        }
    }
}

impl PlayerBuilder {
    /// A builder with the defaults: no profile, the whole skin shown, right
    /// handed, listed, default locale and view distance, chat enabled with
    /// colors, all particles.
    pub fn new() -> (r: Self)
        ensures
            r@ == (PlayerBuilderView {
                profile: None,
                skin_options: 0x7f,
                main_hand: Hand::Right,
                allow_server_listing: true,
                locale: None,
                view_distance: None,
                chat_options: 0x05,
                particle_options: ParticleOptions::All,
            }),
    {
        let chat = ChatOptions { bits: ChatOptions::ENABLED }.union(
            ChatOptions { bits: ChatOptions::COLORS_ENABLED },
        );
        assert(0x01u8 | 0x04u8 == 0x05u8) by (bit_vector);
        Self {
            profile: None,
            skin_options: SkinOptions::all(),
            main_hand: Hand::Right,
            allow_server_listing: true,
            locale: None,
            view_distance: None,
            chat_options: chat,
            particle_options: ParticleOptions::All,
        }
    }

    /// The builder with the given profile.
    pub fn profile(self, profile: Profile) -> (r: Self)
        ensures
            r@ == (PlayerBuilderView { profile: Some(profile@), ..self@ }),
    {
        let mut s = self;
        s.profile = Some(profile);
        s
    }

    /// The builder with the given skin options.
    pub fn skin_options(self, skin_options: SkinOptions) -> (r: Self)
        ensures
            r@ == (PlayerBuilderView { skin_options: skin_options@, ..self@ }),
    {
        let mut s = self;
        s.skin_options = skin_options;
        s
    }

    /// The builder with the given main hand.
    pub fn main_hand(self, main_hand: Hand) -> (r: Self)
        ensures
            r@ == (PlayerBuilderView { main_hand, ..self@ }),
    {
        let mut s = self;
        s.main_hand = main_hand;
        s
    }

    /// The player, if a profile was given; a missing locale becomes
    /// `en_US` and a missing view distance 8.
    pub fn build(self) -> (r: Option<Player>)
        ensures
            r is Some <==> self@.profile is Some,
            r matches Some(p) ==> p@ == (PlayerView {
                profile: self@.profile->0,
                skin_options: self@.skin_options,
                main_hand: self@.main_hand,
                allow_server_listing: self@.allow_server_listing,
                locale: match self@.locale {
                    Some(l) => l,
                    None => "en_US"@,
                },
                view_distance: match self@.view_distance {
                    Some(v) => v,
                    None => 8,
                },
                chat_options: self@.chat_options,
                particle_options: self@.particle_options,
            }),
    {
        let profile = match self.profile {
            Some(p) => p,
            None => return None,
        };
        let locale = match self.locale {
            Some(l) => l,
            None => String::from_str("en_US"),
        };
        let view_distance = match self.view_distance {
            Some(v) => v,
            None => 8,
        };
        Some(
            Player {
                profile,
                skin_options: self.skin_options,
                main_hand: self.main_hand,
                allow_server_listing: self.allow_server_listing,
                locale,
                view_distance,
                chat_options: self.chat_options,
                particle_options: self.particle_options,
            },
        )
    }
}

/// Law: a profile's bytes start with its whole 128-bit uuid, big-endian,
/// which reads back unchanged, followed by its name, which reads back too
/// when its UTF-8 fits a VarInt length.
pub proof fn lemma_profile_reads_back(p: ProfileView)
    ensures
        profile_bytes(p).len() >= 16,
        crate::net::data::be_value(profile_bytes(p).take(16)) == p.uuid,
        crate::net::data::spec_parse_be(profile_bytes(p), 16) == crate::net::data::SpecResult::Done(
            16,
            p.uuid as nat,
        ),
        vstd::utf8::encode_utf8(p.username).len() <= i32::MAX ==> crate::net::data::spec_parse_string(
            profile_bytes(p).skip(16),
        ) == crate::net::data::SpecResult::Done(string_bytes(p.username).len(), p.username),
{
    crate::net::data::lemma_pow256_16();
    let ub = be_bytes(p.uuid as nat, 16);
    let tail = string_bytes(p.username) + array_bytes::<ProfileProperty>(p.properties);
    crate::net::data::lemma_be_roundtrip(p.uuid as nat, 16);
    crate::net::data::lemma_parse_be_roundtrip(p.uuid as nat, 16, tail);
    assert(profile_bytes(p) =~= ub + tail);
    assert(profile_bytes(p).take(16) =~= ub);
    assert(profile_bytes(p).skip(16) =~= tail);
    if vstd::utf8::encode_utf8(p.username).len() <= i32::MAX {
        crate::net::data::lemma_string_roundtrip(
            p.username,
            array_bytes::<ProfileProperty>(p.properties),
        );
    }
}

} // verus!
