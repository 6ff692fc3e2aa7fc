//! Shared vocabulary of the network: connection kinds between users and the
//! reaction kinds that users attach to posts, comments and messages.

use vstd::prelude::*;

verus! {

/// Directed relationship kind between two users.
#[derive(Clone, Copy, Debug, PartialEq, Eq, Structural)]
pub enum UserConnectionType {
    Friend,
    Follower,
    Following,
}

impl UserConnectionType {
    /// The kind recorded at the other endpoint of a mirrored edge:
    /// `Friend` mirrors to `Friend`, `Follower` and `Following` swap.
    pub fn get_opposite(&self) -> (r: UserConnectionType)
        ensures
            r == self.opposite(),
    {
        match self {
            UserConnectionType::Follower => UserConnectionType::Following,
            UserConnectionType::Following => UserConnectionType::Follower,
            UserConnectionType::Friend => UserConnectionType::Friend,
        }
    }

    pub open spec fn opposite(self) -> UserConnectionType {
        match self {
            UserConnectionType::Follower => UserConnectionType::Following,
            UserConnectionType::Following => UserConnectionType::Follower,
            UserConnectionType::Friend => UserConnectionType::Friend,
        }
    }

    /// Printable name of the kind.
    pub fn label(&self) -> (r: String)
        ensures
            r@ == self.label_spec(),
    {
        match self {
            UserConnectionType::Friend => String::from_str("Friend"),
            UserConnectionType::Follower => String::from_str("Follower"),
            UserConnectionType::Following => String::from_str("Following"),
        }
    }

    pub open spec fn label_spec(self) -> Seq<char> {
        match self {
            UserConnectionType::Friend => "Friend"@,
            UserConnectionType::Follower => "Follower"@,
            UserConnectionType::Following => "Following"@,
        }
    }
}

/// Reaction kind; `Dislike` is the sole negative one.
#[derive(Clone, Copy, Debug, PartialEq, Eq, Structural)]
pub enum LikeType {
    Like,
    Insightful,
    Love,
    Dislike,
}

impl LikeType {
    pub fn is_positive(&self) -> (r: bool)
        ensures
            r == (self != LikeType::Dislike),
    {
        !self.is_negative()
    }

    pub fn is_negative(&self) -> (r: bool)
        ensures
            r == (self == LikeType::Dislike),
    {
        matches!(self, LikeType::Dislike)
    }

    /// Printable name of the kind.
    pub fn label(&self) -> (r: String)
        ensures
            r@ == self.label_spec(),
    {
        match self {
            LikeType::Like => String::from_str("Like"),
            LikeType::Insightful => String::from_str("Insightful"),
            LikeType::Love => String::from_str("Love"),
            LikeType::Dislike => String::from_str("Dislike"),
        }
    }

    pub open spec fn label_spec(self) -> Seq<char> {
        match self {
            LikeType::Like => "Like"@,
            LikeType::Insightful => "Insightful"@,
            LikeType::Love => "Love"@,
            LikeType::Dislike => "Dislike"@,
        }
    }
}

} // verus!
