//! Small types that say what they are.
use vstd::prelude::*;

use crate::text::{decimal, push_decimal};

verus! {

/// A point in the integer plane.
#[derive(Debug, Clone, Copy, PartialEq, Eq, Default)]
pub struct Point {
    pub x: i32,
    pub y: i32,
}

/// A type that describes itself in a sentence.
pub trait Describe {
    spec fn description(&self) -> Seq<char>;

    fn describe(&self) -> (r: String)
        ensures
            r@ == self.description(),
    ;
}

/// A user with a name and an age.
pub struct User {
    pub name: String,
    pub age: u32,
}

impl Describe for User {
    open spec fn description(&self) -> Seq<char> {
        "User: "@ + self.name@ + " is "@ + decimal(self.age as nat) + " years old"@
    }

    fn describe(&self) -> (r: String) {
        let mut out = String::from_str("User: ");
        out.append(self.name.as_str());
        out.append(" is ");
        push_decimal(&mut out, self.age as u64);
        out.append(" years old");
        out
    }
}

} // verus!
