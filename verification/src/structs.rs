//! Plain records: a user account and a rectangle.

use vstd::prelude::*;

verus! {

/// An account.
#[derive(Debug)]
pub struct User {
    pub active: bool,
    pub username: String,
    pub email: String,
    pub sign_in_count: u64,
}

/// A new account: active, and signed in once.
pub fn build_user(email: String, username: String) -> (user: User)
    ensures
        user.email == email,
        user.username == username,
        user.active,
        user.sign_in_count == 1,
{
    User { email, username, active: true, sign_in_count: 1 }
}

/// A rectangle with sides parallel to the axes.
#[derive(Debug)]
pub struct Rectangle {
    pub width: u32,
    pub height: u32,
}

impl Rectangle {
    /// Width times height, where the product fits.
    pub fn area(&self) -> (area: u32)
        requires
            self.width * self.height <= u32::MAX,
        ensures
            area == self.width * self.height,
    {
        self.width * self.height
    }

    /// Whether `other` fits inside with room to spare on every side:
    /// narrower and lower, not merely as wide or as high.
    pub fn can_hold(&self, other: &Rectangle) -> (fits: bool)
        ensures
            fits <==> self.width > other.width && self.height > other.height,
    {
        self.width > other.width && self.height > other.height
    }

    /// The square of side `size`.
    pub fn square(size: u32) -> (square: Rectangle)
        ensures
            square.width == size,
            square.height == size,
    {
        Rectangle { width: size, height: size }
    }
}

/// The area of a rectangle given by its two sides.
pub fn _compute_area1(width: u32, height: u32) -> (area: u32)
    requires
        width * height <= u32::MAX,
    ensures
        area == width * height,
{
    width * height
}

/// The area of a rectangle given as the pair of its width and height.
pub fn _compute_area2(dims: (u32, u32)) -> (area: u32)
    requires
        dims.0 * dims.1 <= u32::MAX,
    ensures
        area == dims.0 * dims.1,
{
    dims.0 * dims.1
}

/// The area of a rectangle.
pub fn _compute_area3(rect: &Rectangle) -> (area: u32)
    requires
        rect.width * rect.height <= u32::MAX,
    ensures
        area == rect.width * rect.height,
{
    rect.width * rect.height
}

} // verus!
