//! The flat model: what the binary model layout holds.

use crate::math::Matrix4;
use crate::math::Vector2;
use crate::math::Vector3;
use vstd::prelude::*;

verus! {

/// One pixel: red, green, blue.
#[derive(Clone, Copy, Debug, PartialEq, Eq, Hash, Structural)]
pub struct Rgb {
    pub r: u8,
    pub g: u8,
    pub b: u8,
}

impl DeepView for Rgb {
    type V = Rgb;

    open spec fn deep_view(&self) -> Rgb {
        *self
    }
}

/// A block of pixels, row after row.
#[derive(Debug, PartialEq, Eq)]
pub struct Texture {
    pub width: u16,
    pub height: u16,
    pub pixels: Vec<Rgb>,
}

/// The model of a [`Texture`].
pub struct TextureView {
    pub width: u16,
    pub height: u16,
    pub pixels: Seq<Rgb>,
}

impl TextureView {
    /// There is one pixel for every place of the block.
    pub open spec fn well_formed(self) -> bool {
        self.pixels.len() == self.width * self.height
    }
}

impl View for Texture {
    type V = TextureView;

    open spec fn view(&self) -> TextureView {
        TextureView { width: self.width, height: self.height, pixels: self.pixels@ }
    }
}

impl DeepView for Texture {
    type V = TextureView;

    open spec fn deep_view(&self) -> TextureView {
        self@
    }
}

/// A material: its name, the paths of its two shader sources, and up to
/// three textures.
#[derive(Debug, PartialEq, Eq)]
pub struct Material {
    pub name: String,
    pub shader_vertex: String,
    pub shader_fragment: String,
    pub normals: Option<Texture>,
    pub diffuse: Option<Texture>,
    pub specular: Option<Texture>,
}

/// The model of a [`Material`].
pub struct MaterialView {
    pub name: Seq<char>,
    pub shader_vertex: Seq<char>,
    pub shader_fragment: Seq<char>,
    pub normals: Option<TextureView>,
    pub diffuse: Option<TextureView>,
    pub specular: Option<TextureView>,
}

impl View for Material {
    type V = MaterialView;

    open spec fn view(&self) -> MaterialView {
        MaterialView {
            name: self.name@,
            shader_vertex: self.shader_vertex@,
            shader_fragment: self.shader_fragment@,
            normals: self.normals.deep_view(),
            diffuse: self.diffuse.deep_view(),
            specular: self.specular.deep_view(),
        }
    }
}

impl DeepView for Material {
    type V = MaterialView;

    open spec fn deep_view(&self) -> MaterialView {
        self@
    }
}

/// A model as the flat layout holds it.
#[derive(Debug, PartialEq, Eq)]
pub struct Model {
    pub name: String,
    pub transform: Matrix4,
    pub materials: Vec<Material>,
    pub indices: Vec<u32>,
    pub vertices: Vec<Vector3>,
    pub texcoords: Vec<Vector2>,
}

/// The model of a [`Model`].
pub struct ModelView {
    pub name: Seq<char>,
    pub transform: Matrix4,
    pub materials: Seq<MaterialView>,
    pub indices: Seq<u32>,
    pub vertices: Seq<Vector3>,
    pub texcoords: Seq<Vector2>,
}

impl ModelView {
    /// The indices make whole triangles.
    pub open spec fn whole_triangles(self) -> bool {
        self.indices.len() % 3 == 0
    }

    /// Every index points at a vertex and at a texture coordinate: the one
    /// index list selects from both arrays.
    pub open spec fn indices_in_range(self) -> bool {
        forall|i: int|
            0 <= i < self.indices.len() ==> (#[trigger] self.indices[i]) < self.vertices.len()
                && self.indices[i] < self.texcoords.len()
    }

    /// What holds of every model that a load hands out.
    pub open spec fn well_formed(self) -> bool {
        self.whole_triangles() && self.indices_in_range()
    }
}

impl View for Model {
    type V = ModelView;

    open spec fn view(&self) -> ModelView {
        ModelView {
            name: self.name@,
            transform: self.transform,
            materials: self.materials.deep_view(),
            indices: self.indices@,
            vertices: self.vertices@,
            texcoords: self.texcoords@,
        }
    }
}

} // verus!
