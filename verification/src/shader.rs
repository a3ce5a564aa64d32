use vstd::prelude::*;

verus! {

/// The kinds of shader a program can be built from. Each kind has the
/// numeric code the graphics API knows it by; compiling and linking happen
/// outside this library, against those codes.
#[derive(Debug, Clone, Copy, PartialEq, Eq, Structural)]
pub enum ShaderKind {
    Vertex,
    Fragment,
    Compute,
    Geometry,
}

impl ShaderKind {
    /// The numeric code of this kind.
    pub open spec fn code_spec(self) -> u32 {
        match self {
            ShaderKind::Vertex => 35633,
            ShaderKind::Fragment => 35632,
            ShaderKind::Compute => 37305,
            ShaderKind::Geometry => 36313,
        }
    }

    /// The numeric code of this kind.
    pub fn code(&self) -> (r: u32)
        ensures
            r == self.code_spec(),
    {
        match self {
            ShaderKind::Vertex => 35633,
            ShaderKind::Fragment => 35632,
            ShaderKind::Compute => 37305,
            ShaderKind::Geometry => 36313,
        }
    }

    /// The kind a numeric code names, if any: the exact inverse of `code`.
    pub fn try_from_code(value: u32) -> (r: Result<ShaderKind, ()>)
        ensures
            value == 35633 ==> r == Ok::<ShaderKind, ()>(ShaderKind::Vertex),
            value == 35632 ==> r == Ok::<ShaderKind, ()>(ShaderKind::Fragment),
            value == 37305 ==> r == Ok::<ShaderKind, ()>(ShaderKind::Compute),
            value == 36313 ==> r == Ok::<ShaderKind, ()>(ShaderKind::Geometry),
            value != 35633 && value != 35632 && value != 37305 && value != 36313 ==> r == Err::<
                ShaderKind,
                (),
            >(()),
    {
        if value == 35633 {
            Ok(ShaderKind::Vertex)
        } else if value == 35632 {
            Ok(ShaderKind::Fragment)
        } else if value == 37305 {
            Ok(ShaderKind::Compute)
        } else if value == 36313 {
            Ok(ShaderKind::Geometry)
        } else {
            Err(())
        }
    }
}

} // verus!
