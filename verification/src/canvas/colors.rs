//! Predefined colors.

use crate::canvas::PixelColor;
use vstd::prelude::*;

verus! {

pub open spec fn spec_white() -> PixelColor {
    PixelColor { r: 255, g: 255, b: 255 }
}

#[verifier::when_used_as_spec(spec_white)]
pub fn white() -> (color: PixelColor)
    ensures
        color == spec_white(),
{
    PixelColor { r: 255, g: 255, b: 255 }
}

pub open spec fn spec_black() -> PixelColor {
    PixelColor { r: 0, g: 0, b: 0 }
}

#[verifier::when_used_as_spec(spec_black)]
pub fn black() -> (color: PixelColor)
    ensures
        color == spec_black(),
{
    PixelColor { r: 0, g: 0, b: 0 }
}

pub open spec fn spec_red() -> PixelColor {
    PixelColor { r: 255, g: 0, b: 0 }
}

#[verifier::when_used_as_spec(spec_red)]
pub fn red() -> (color: PixelColor)
    ensures
        color == spec_red(),
{
    PixelColor { r: 255, g: 0, b: 0 }
}

pub open spec fn spec_green() -> PixelColor {
    PixelColor { r: 0, g: 255, b: 0 }
}

#[verifier::when_used_as_spec(spec_green)]
pub fn green() -> (color: PixelColor)
    ensures
        color == spec_green(),
{
    PixelColor { r: 0, g: 255, b: 0 }
}

pub open spec fn spec_blue() -> PixelColor {
    PixelColor { r: 0, g: 0, b: 255 }
}

#[verifier::when_used_as_spec(spec_blue)]
pub fn blue() -> (color: PixelColor)
    ensures
        color == spec_blue(),
{
    PixelColor { r: 0, g: 0, b: 255 }
}

pub open spec fn spec_yellow() -> PixelColor {
    PixelColor { r: 255, g: 255, b: 0 }
}

#[verifier::when_used_as_spec(spec_yellow)]
pub fn yellow() -> (color: PixelColor)
    ensures
        color == spec_yellow(),
{
    PixelColor { r: 255, g: 255, b: 0 }
}

pub open spec fn spec_cyan() -> PixelColor {
    PixelColor { r: 0, g: 255, b: 255 }
}

#[verifier::when_used_as_spec(spec_cyan)]
pub fn cyan() -> (color: PixelColor)
    ensures
        color == spec_cyan(),
{
    PixelColor { r: 0, g: 255, b: 255 }
}

pub open spec fn spec_magenta() -> PixelColor {
    PixelColor { r: 255, g: 0, b: 255 }
}

#[verifier::when_used_as_spec(spec_magenta)]
pub fn magenta() -> (color: PixelColor)
    ensures
        color == spec_magenta(),
{
    PixelColor { r: 255, g: 0, b: 255 }
}

} // verus!
