//! Surface materials and the Phong illumination of a point on a surface.
use crate::lights::PointLight;
use crate::scalar::Scalar;
use crate::tuples::{color, spec_vector, Tuple};
use vstd::prelude::*;
use vstd::std_specs::cmp::PartialEqSpecImpl;

verus! {

/// How a surface answers light. `shininess` is the exponent of the specular
/// highlight.
#[derive(Clone, Copy, Debug)]
pub struct Material {
    pub color: Tuple,
    pub ambient: Scalar,
    pub diffuse: Scalar,
    pub specular: Scalar,
    pub shininess: Scalar,
}

impl PartialEq for Material {
    fn eq(&self, other: &Self) -> (b: bool) {
        self.color == other.color && self.ambient.raw == other.ambient.raw && self.diffuse.raw
            == other.diffuse.raw && self.specular.raw == other.specular.raw && self.shininess.raw
            == other.shininess.raw
    }
}

impl PartialEqSpecImpl for Material {
    open spec fn obeys_eq_spec() -> bool {
        true
    }

    /// The colours agree within the tolerance, and the four numbers are the
    /// same.
    open spec fn eq_spec(&self, other: &Self) -> bool {
        &&& self.color.spec_approx_eq(other.color)
        &&& self.ambient == other.ambient
        &&& self.diffuse == other.diffuse
        &&& self.specular == other.specular
        &&& self.shininess == other.shininess
    }
}

/// The colour without light.
pub open spec fn spec_black() -> Tuple {
    spec_vector(Scalar::spec_zero(), Scalar::spec_zero(), Scalar::spec_zero())
}

impl Material {
    /// The colour of the surface as the light tints it.
    pub open spec fn spec_effective_color(self, light: PointLight) -> Tuple {
        self.color.spec_hadamard(light.intensity)
    }

    /// The unit vector from `position` toward the light.
    pub open spec fn spec_light_vector(light: PointLight, position: Tuple) -> Tuple {
        light.position.spec_sub(position).spec_normalize()
    }

    /// The light that reaches the surface whatever its direction.
    pub open spec fn spec_ambient(self, light: PointLight) -> Tuple {
        self.spec_effective_color(light).spec_mul(self.ambient)
    }

    /// The light scattered by the surface: none where the light is behind
    /// it.
    pub open spec fn spec_diffuse(self, light: PointLight, position: Tuple, normalv: Tuple) -> Tuple {
        let lightv = Self::spec_light_vector(light, position);
        let light_dot_normal = lightv.spec_dot(normalv);
        if light_dot_normal@ < 0 {
            spec_black()
        } else {
            self.spec_effective_color(light).spec_mul(self.diffuse).spec_mul(light_dot_normal)
        }
    }

    /// The highlight: none where the light is behind the surface or its
    /// reflection points away from the eye.
    pub open spec fn spec_specular(
        self,
        light: PointLight,
        position: Tuple,
        eyev: Tuple,
        normalv: Tuple,
    ) -> Tuple {
        let lightv = Self::spec_light_vector(light, position);
        let light_dot_normal = lightv.spec_dot(normalv);
        let reflect_dot_eye = lightv.spec_neg().spec_reflect(normalv).spec_dot(eyev);
        if light_dot_normal@ < 0 || reflect_dot_eye@ <= 0 {
            spec_black()
        } else {
            light.intensity.spec_mul(self.specular).spec_mul(
                reflect_dot_eye.spec_powf(self.shininess),
            )
        }
    }

    /// The colour seen: ambient, diffuse and specular light summed, not
    /// clamped.
    pub open spec fn spec_lighting(
        self,
        light: PointLight,
        position: Tuple,
        eyev: Tuple,
        normalv: Tuple,
    ) -> Tuple {
        self.spec_ambient(light).spec_add(self.spec_diffuse(light, position, normalv)).spec_add(
            self.spec_specular(light, position, eyev, normalv),
        )
    }

    /// The default material: white, ambient 0.1, diffuse 0.9, specular 0.9,
    /// shininess 200.
    pub open spec fn spec_new() -> Material {
        Material {
            color: spec_vector(Scalar::spec_one(), Scalar::spec_one(), Scalar::spec_one()),
            ambient: Scalar { raw: 100_000_000 },
            diffuse: Scalar { raw: 900_000_000 },
            specular: Scalar { raw: 900_000_000 },
            shininess: Scalar { raw: 200_000_000_000 },
        }
    }

    /// The default material.
    pub fn new() -> (m: Material)
        ensures
            m == Material::spec_new(),
    {
        Material {
            color: color(Scalar::one(), Scalar::one(), Scalar::one()),
            ambient: Scalar::from_raw(100_000_000),
            diffuse: Scalar::from_raw(900_000_000),
            specular: Scalar::from_raw(900_000_000),
            shininess: Scalar::from_raw(200_000_000_000),
        }
    }

    /// The colour of the surface at `position`, lit by `light`, seen along
    /// `eyev`, where the surface normal is `normalv`. The material's colour
    /// and the light's are colours, the two directions are vectors, and the
    /// light's position less `position` is a vector.
    pub fn lighting(
        &self,
        light: &PointLight,
        position: &Tuple,
        eyev: &Tuple,
        normalv: &Tuple,
    ) -> (shade: Tuple)
        requires
            self.color.spec_is_vector(),
            light.intensity.spec_is_vector(),
            light.position.spec_sub(*position).spec_is_vector(),
            eyev.spec_is_vector(),
            normalv.spec_is_vector(),
        ensures
            shade == self.spec_lighting(*light, *position, *eyev, *normalv),
    {
        let effective_color = self.color.hadamard_product(light.intensity);
        let lightv = light.position.sub(*position).normalize();
        let ambient = effective_color.mul(self.ambient);
        let light_dot_normal = lightv.dot_product(*normalv);
        let black = color(Scalar::zero(), Scalar::zero(), Scalar::zero());
        let (diffuse, specular) = if light_dot_normal.is_negative() {
            (black, black)
        } else {
            let diffuse = effective_color.mul(self.diffuse).mul(light_dot_normal);
            let reflect_dot_eye = lightv.neg().reflect(*normalv).dot_product(*eyev);
            if reflect_dot_eye.le(Scalar::zero()) {
                (diffuse, black)
            } else {
                let factor = reflect_dot_eye.powf(self.shininess);
                (diffuse, light.intensity.mul(self.specular).mul(factor))
            }
        };
        ambient.add(diffuse).add(specular)
    }
}

} // verus!
