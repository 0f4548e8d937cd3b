//! Identities of users and of lobbies.

use vstd::prelude::*;
use arrayvec::ArrayString;

verus! {

/// `arrayvec::ArrayString`, a string of at most `CAP` bytes held in place.
/// Nothing is known of what is inside.
#[verifier::external_type_specification]
#[verifier::external_body]
pub struct ExArrayString<const CAP: usize>(ArrayString<CAP>);

/// The token a client presents when it joins; the same token names the same
/// user across reconnects.
pub type UserId = ArrayString<32>;

/// Identity of a lobby, minted when the lobby is created.
pub type ActorId = u128;

/// The text that a user id holds: what `ArrayString::as_str` yields, char by
/// char.
pub uninterp spec fn user_token(id: ArrayString<32>) -> Seq<char>;

/// `ArrayString`'s `==`, which compares the two strings' text: the claim is
/// that it holds exactly when the two ids hold the same text.
#[verifier::external_body]
fn same_user(a: &UserId, b: &UserId) -> (same: bool)
    ensures
        same == (user_token(*a) == user_token(*b)),
{
    a == b
}

/// An identity under which values are filed: two keys name the same entry
/// exactly when their tokens are equal.
pub trait Key: Copy {
    /// The kind of thing that keys stand for.
    type Token;

    /// What the key stands for.
    spec fn token(&self) -> Self::Token;

    /// Whether the two keys name the same entry.
    fn same(&self, other: &Self) -> (same: bool)
        ensures
            same == (self.token() == other.token()),
    ;
}

impl Key for UserId {
    type Token = Seq<char>;

    /// The text of the id.
    open spec fn token(&self) -> Seq<char> {
        user_token(*self)
    }

    /// Whether the two ids hold the same text.
    fn same(&self, other: &Self) -> (same: bool) {
        same_user(self, other)
    }
}

impl Key for ActorId {
    type Token = ActorId;

    /// The identity itself.
    open spec fn token(&self) -> ActorId {
        *self
    }

    /// Whether the two identities are equal.
    fn same(&self, other: &Self) -> (same: bool) {
        *self == *other
    }
}

/// `Uuid::now_v7`, as the 128-bit number that the identifier stands for.
/// Nothing is claimed of the value: it depends on the clock and on chance.
#[verifier::external_body]
pub(crate) fn mint_actor_id() -> (id: ActorId)
{
    uuid::Uuid::now_v7().as_u128()
}

} // verus!
