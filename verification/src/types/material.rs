//! Materials, and which terms of the reflection model reach the eye.

use vstd::prelude::*;
use crate::types::colour::Colour;
use crate::types::scalar::Scalar;

verus! {

/// How a surface answers light: its colour and the weights of the ambient,
/// diffuse and specular terms, with the exponent of the highlight.
#[derive(Clone, Copy, Debug)]
pub struct Material {
    pub colour: Colour,
    pub ambient: Scalar,
    pub diffuse: Scalar,
    pub specular: Scalar,
    pub shininess: Scalar,
}

/// The terms of the reflection model that reach the eye from a point.
#[derive(Clone, Copy, Debug, PartialEq, Eq, Structural)]
pub enum Terms {
    /// The point is in shadow or turned away from the light.
    Ambient,
    /// The point is lit, and its highlight points away from the eye.
    AmbientDiffuse,
    /// The point is lit and shows its highlight.
    AmbientDiffuseSpecular,
}

impl Material {
    /// White, a tenth ambient, nine tenths diffuse and specular, shininess
    /// two hundred.
    pub open spec fn spec_default() -> Material {
        Material {
            colour: Colour { r: Scalar::spec_one(), g: Scalar::spec_one(), b: Scalar::spec_one() },
            ambient: Scalar { bits: 0x3DCC_CCCD },
            diffuse: Scalar { bits: 0x3F66_6666 },
            specular: Scalar { bits: 0x3F66_6666 },
            shininess: Scalar { bits: 0x4348_0000 },
        }
    }

    /// The terms that count, from the cosine of the angle between the
    /// direction to the light and the normal, and the cosine of the angle
    /// between the reflected light and the eye.
    pub open spec fn spec_terms(
        light_dot_normal: Scalar,
        reflect_dot_eye: Scalar,
        in_shadow: bool,
    ) -> Terms {
        if in_shadow || light_dot_normal.is_negative() {
            Terms::Ambient
        } else if reflect_dot_eye.is_positive() {
            Terms::AmbientDiffuseSpecular
        } else {
            Terms::AmbientDiffuse
        }
    }

    /// The terms of the reflection model that count at a point.
    pub fn terms(light_dot_normal: Scalar, reflect_dot_eye: Scalar, in_shadow: bool) -> (t: Terms)
        ensures
            t == Self::spec_terms(light_dot_normal, reflect_dot_eye, in_shadow),
    {
        if light_dot_normal.lt(Scalar::zero()) || in_shadow {
            Terms::Ambient
        } else if reflect_dot_eye.gt(Scalar::zero()) {
            Terms::AmbientDiffuseSpecular
        } else {
            Terms::AmbientDiffuse
        }
    }
}

impl Default for Material {
    /// A whitish, moderately shiny material.
    fn default() -> (m: Self)
        ensures
            m == Material::spec_default(),
    {
        Self {
            colour: Colour::new(Scalar::one(), Scalar::one(), Scalar::one()),
            ambient: Scalar::from_bits(0x3DCC_CCCD),
            diffuse: Scalar::from_bits(0x3F66_6666),
            specular: Scalar::from_bits(0x3F66_6666),
            shininess: Scalar::from_bits(0x4348_0000),
        }
    }
}

} // verus!
