//! The errors a scene-description parser reports for malformed entity
//! descriptions, and the primitive field parsers the library owns. The
//! file reading and number parsing around them live with the caller.

use vstd::prelude::*;
use vstd::string::{StringExecFns, StringExecFnsIsAscii};
use crate::clean_scenes::{ascii_bytes, ascii_bytes_of, bytes_of_ascii};

verus! {

/// A malformed material description, carrying the offending text.
#[derive(Debug)]
pub enum MaterialError {
    Full(String),
    Opaque(String),
    Light(String),
    Glass(String),
}

impl MaterialError {
    /// The offending description text.
    pub fn description(&self) -> (r: &String)
        ensures
            *r == match *self {
                MaterialError::Full(s) => s,
                MaterialError::Opaque(s) => s,
                MaterialError::Light(s) => s,
                MaterialError::Glass(s) => s,
            },
    {
        match self {
            MaterialError::Full(s) => s,
            MaterialError::Opaque(s) => s,
            MaterialError::Light(s) => s,
            MaterialError::Glass(s) => s,
        }
    }
}

/// A malformed object description, carrying the offending text.
#[derive(Debug)]
pub enum ObjectError {
    Sphere(String),
    Triangle(String),
}

impl ObjectError {
    /// The offending description text.
    pub fn description(&self) -> (r: &String)
        ensures
            *r == match *self {
                ObjectError::Sphere(s) => s,
                ObjectError::Triangle(s) => s,
            },
    {
        match self {
            ObjectError::Sphere(s) => s,
            ObjectError::Triangle(s) => s,
        }
    }
}

/// A malformed texture description, carrying the offending text.
#[derive(Debug)]
pub enum TextureError {
    Perlin(String),
    Checker(String),
    Stripe(String),
    Gradient(String),
}

impl TextureError {
    /// The offending description text.
    pub fn description(&self) -> (r: &String)
        ensures
            *r == match *self {
                TextureError::Perlin(s) => s,
                TextureError::Checker(s) => s,
                TextureError::Stripe(s) => s,
                TextureError::Gradient(s) => s,
            },
    {
        match self {
            TextureError::Perlin(s) => s,
            TextureError::Checker(s) => s,
            TextureError::Stripe(s) => s,
            TextureError::Gradient(s) => s,
        }
    }
}

/// The byte sequence of the word `true`.
pub open spec fn true_bytes() -> Seq<u8> {
    seq![116u8, 114u8, 117u8, 101u8]
}

/// The byte sequence of the word `false`.
pub open spec fn false_bytes() -> Seq<u8> {
    seq![102u8, 97u8, 108u8, 115u8, 101u8]
}

/// Parse a boolean field: exactly the words `true` and `false` are
/// accepted, anything else the caller must have ruled out.
pub fn parse_bool(text: &String) -> (r: bool)
    requires
        text.is_ascii(),
        bytes_of_ascii(text@) == true_bytes() || bytes_of_ascii(text@) == false_bytes(),
    ensures
        r == (bytes_of_ascii(text@) == true_bytes()),
{
    let bytes = ascii_bytes_of(text);
    if bytes.len() == 4 {
        proof {
            assert(bytes@ =~= true_bytes());
        }
        true
    } else {
        proof {
            assert(bytes@ =~= false_bytes());
            assert(bytes_of_ascii(text@) != true_bytes());
        }
        false
    }
}

} // verus!
