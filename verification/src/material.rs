//! Materials: a texture, an optional displacement map, a colour, and an
//! optional decoded image.

use vstd::prelude::*;

use crate::transform::{Vec3Bits, ONE_BITS};

verus! {

/// The decoded image type of the `image` crate, carried through unread.
#[verifier::external_type_specification]
#[verifier::external_body]
pub struct ExDynamicImage(image::DynamicImage);

/// A material. The colour components are single-precision numbers held by
/// their bit patterns.
#[derive(Clone)]
pub struct Material {
    pub texture: String,
    pub displacement: String,
    pub color: Vec3Bits,
    pub image: Option<image::DynamicImage>,
}

impl Material {
    /// A white material with the given texture and no displacement map.
    pub fn from_texture(texture: &str) -> (r: Material)
        ensures
            r.texture@ == texture@,
            r.displacement@ == Seq::<char>::empty(),
            r.color == (Vec3Bits { x: ONE_BITS, y: ONE_BITS, z: ONE_BITS }),
            r.image is None,
    {
        Material { texture: texture.to_owned(), displacement: String::new(), color: Vec3Bits::one(), image: None }
    }

    /// A material of one colour, without texture or displacement map.
    pub fn from_color(color: Vec3Bits) -> (r: Material)
        ensures
            r.texture@ == Seq::<char>::empty(),
            r.displacement@ == Seq::<char>::empty(),
            r.color == color,
            r.image is None,
    {
        Material { texture: String::new(), displacement: String::new(), color, image: None }
    }

    /// Sets the decoded image.
    pub fn set_image(&mut self, image: Option<image::DynamicImage>)
        ensures
            final(self).image == image,
            final(self).texture == old(self).texture,
            final(self).displacement == old(self).displacement,
            final(self).color == old(self).color,
    {
        self.image = image;
    }

    /// Sets the displacement map.
    pub fn set_displacement(&mut self, texture: &str)
        ensures
            final(self).displacement@ == texture@,
            final(self).texture == old(self).texture,
            final(self).color == old(self).color,
            final(self).image == old(self).image,
    {
        self.displacement = texture.to_owned();
    }

    /// The texture.
    pub fn get_texture(&self) -> (r: &str)
        ensures
            r@ == self.texture@,
    {
        self.texture.as_str()
    }

    /// The displacement map, unless it is the empty name.
    pub fn get_displacement(&self) -> (r: Option<&str>)
        ensures
            self.displacement@.len() == 0 ==> r is None,
            self.displacement@.len() > 0 ==> r is Some && r.unwrap()@ == self.displacement@,
    {
        if self.displacement.as_str().is_empty() {
            None
        } else {
            Some(self.displacement.as_str())
        }
    }
}

} // verus!
