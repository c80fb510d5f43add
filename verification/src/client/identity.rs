//! Guest identity, kept on disk.
//!
//! The first launch asks for a nick and the backend hands back an id and a
//! signed token. Both are written next to the player's other config so the
//! second launch goes straight to the queue.
//!
//! This is not a security boundary and was never meant to be: anyone can delete
//! the file and start over. What the token does buy is that a player cannot
//! claim to be *somebody else*, which is all the rating system needs.

use vstd::prelude::*;
#[allow(unused_imports)]
use vstd::utf8::encode_utf8;

verus! {

pub const DIR_NAME: &'static str = "pacman-1v1";

pub const FILE_NAME: &'static str = "identity.json";

#[derive(Debug, Clone, PartialEq, Eq)]
pub struct Identity {
    pub player_id: String,
    pub nick: String,
    pub token: String,
}

impl Default for Identity {
    /// An identity of nobody.
    fn default() -> (i: Identity)
        ensures
            i.player_id@.len() == 0,
            i.nick@.len() == 0,
            i.token@.len() == 0,
    {
        Identity { player_id: String::new(), nick: String::new(), token: String::new() }
    }
}

impl Identity {
    /// Complete enough to skip the nick screen.
    pub fn is_usable(&self) -> (yes: bool)
        ensures
            yes == (self.player_id@.len() > 0 && self.token@.len() > 0 && self.nick@.len() > 0),
    {
        !self.player_id.as_str().is_empty() && !self.token.as_str().is_empty()
            && !self.nick.as_str().is_empty()
    }
}

/// What an identity file amounts to: nothing usable where there is none or it
/// could not be read.
pub fn load(stored: Option<Identity>) -> (identity: Identity)
    ensures
        match stored {
            Some(i) => identity == i,
            None => identity.player_id@.len() == 0 && identity.nick@.len() == 0
                && identity.token@.len() == 0,
        },
{
    match stored {
        Some(i) => i,
        None => Identity::default(),
    }
}

/// Where the game's directory goes.
#[derive(Debug, Clone, Copy, PartialEq, Eq, Structural)]
pub enum ConfigBase {
    /// `$XDG_CONFIG_HOME`.
    Xdg,
    /// `$HOME/.config`.
    HomeConfig,
    /// The working directory.
    Here,
}

/// `$XDG_CONFIG_HOME`, falling back to `$HOME/.config` and finally to the working
/// directory.
pub fn config_base(has_xdg: bool, has_home: bool) -> (base: ConfigBase)
    ensures
        base == (if has_xdg {
            ConfigBase::Xdg
        } else if has_home {
            ConfigBase::HomeConfig
        } else {
            ConfigBase::Here
        }),
{
    if has_xdg {
        ConfigBase::Xdg
    } else if has_home {
        ConfigBase::HomeConfig
    } else {
        ConfigBase::Here
    }
}

/// FNV-1a over some bytes.
pub open spec fn fnv(bytes: Seq<u8>) -> u64
    decreases bytes.len(),
{
    if bytes.len() == 0 {
        0xcbf2_9ce4_8422_2325
    } else {
        (fnv(bytes.drop_last()) ^ (bytes.last() as u64)).wrapping_mul(0x0000_0100_0000_01b3)
    }
}

/// A stable u64 for the netcode handshake, derived from the player id. Netcode
/// needs a numeric client id; the real identity check is the signed token.
/// Collisions only matter within one two-player match.
pub fn client_id_of(player_id: &str) -> (id: u64)
    ensures
        id == fnv(encode_utf8(player_id@)),
{
    let bytes = player_id.as_bytes();
    let mut hash: u64 = 0xcbf2_9ce4_8422_2325;
    for i in 0..bytes.len()
        invariant
            hash == fnv(bytes@.take(i as int)),
    {
        assert(bytes@.take(i as int + 1).drop_last() =~= bytes@.take(i as int));
        hash = hash ^ (bytes[i] as u64);
        hash = hash.wrapping_mul(0x0000_0100_0000_01b3);
    }
    assert(bytes@.take(bytes@.len() as int) =~= bytes@);
    hash
}

proof fn lemma_inverse(a: nat)
    ensures
        (a * 0x0000_0100_0000_01b3 * 0xce96_5057_aff6_957b) % 0x1_0000_0000_0000_0000 == a
            % 0x1_0000_0000_0000_0000,
{
    let m = 0x1_0000_0000_0000_0000int;
    let k = 0x0000_0100_0000_01b3int * 0xce96_5057_aff6_957bint;
    assert(k % m == 1);
    assert(a * 0x0000_0100_0000_01b3 * 0xce96_5057_aff6_957b == a * k) by (nonlinear_arith)
        requires
            k == 0x0000_0100_0000_01b3int * 0xce96_5057_aff6_957bint,
    ;
    vstd::arithmetic::div_mod::lemma_mul_mod_noop_right(a as int, k, m);
    assert(a * 1 == a);
}

proof fn lemma_mixing_is_injective(a: u64, b: u64)
    requires
        a.wrapping_mul(0x0000_0100_0000_01b3) == b.wrapping_mul(0x0000_0100_0000_01b3),
    ensures
        a == b,
{
    let m = 0x1_0000_0000_0000_0000int;
    let p = 0x0000_0100_0000_01b3int;
    let q = 0xce96_5057_aff6_957bint;
    assert((a * p) % m == (b * p) % m);
    vstd::arithmetic::div_mod::lemma_mul_mod_noop_left(a * p, q, m);
    vstd::arithmetic::div_mod::lemma_mul_mod_noop_left(b * p, q, m);
    lemma_inverse(a as nat);
    lemma_inverse(b as nat);
    vstd::arithmetic::div_mod::lemma_small_mod(a as nat, m as nat);
    vstd::arithmetic::div_mod::lemma_small_mod(b as nat, m as nat);
}

/// Two ids that differ only in their last byte never collide.
pub proof fn law_a_last_byte_never_collides(bytes: Seq<u8>, a: u8, b: u8)
    requires
        a != b,
    ensures
        fnv(bytes.push(a)) != fnv(bytes.push(b)),
{
    assert(bytes.push(a).drop_last() =~= bytes);
    assert(bytes.push(b).drop_last() =~= bytes);
    let h = fnv(bytes);
    let (x, y) = (h ^ (a as u64), h ^ (b as u64));
    if fnv(bytes.push(a)) == fnv(bytes.push(b)) {
        lemma_mixing_is_injective(x, y);
        let (c, d) = (a as u64, b as u64);
        assert(h ^ c == h ^ d ==> c == d) by (bit_vector);
    }
}

/// The number of an id is mixed byte by byte, in order.
pub proof fn law_ids_are_mixed_byte_by_byte(bytes: Seq<u8>, b: u8)
    ensures
        fnv(Seq::empty()) == 14_695_981_039_346_656_037,
        fnv(bytes.push(b)) == ((fnv(bytes) ^ (b as u64)) * 1_099_511_628_211) as int
            % 0x1_0000_0000_0000_0000,
{
    assert(bytes.push(b).drop_last() =~= bytes);
}

} // verus!
