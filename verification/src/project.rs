//! The project file of a design: canvas, palette and layers of stitches.

use vstd::prelude::*;

verus! {

/// A project file.
pub struct NdpFile {
    pub version: String,
    pub metadata: NdpMetadata,
    pub canvas: CanvasConfig,
    pub color_palette: Vec<Color>,
    pub layers: Vec<Layer>,
}

/// Who made a project, when, and with what.
pub struct NdpMetadata {
    pub name: String,
    pub author: Option<String>,
    pub created_at: String,
    pub modified_at: String,
    pub software: String,
}

/// The canvas in stitches.  Its physical size, where known, is kept by the
/// application beside the file.
pub struct CanvasConfig {
    pub width: u32,
    pub height: u32,
    pub mesh_count: u32,
}

/// A colour of a project's palette, with the thread it stands for where one
/// is known.
pub struct Color {
    pub id: String,
    pub name: String,
    pub rgb: [u8; 3],
    pub thread_brand: Option<String>,
    pub thread_code: Option<String>,
    pub symbol: Option<String>,
}

/// A layer of stitches.
pub struct Layer {
    pub id: String,
    pub name: String,
    pub visible: bool,
    pub locked: bool,
    pub stitches: Vec<Stitch>,
}

/// One stitch: its cell, its colour, and whether it has been worked.
pub struct Stitch {
    pub x: u32,
    pub y: u32,
    pub color_id: String,
    pub completed: bool,
}

/// The words with which a user is welcomed.
pub open spec fn greeting(name: Seq<char>) -> Seq<char> {
    "Hello, "@ + name + "! Welcome to NeedlePoint Designer."@
}

/// Welcomes a user by name.
pub fn greet(name: &str) -> (words: String)
    ensures
        words@ == greeting(name@),
{
    String::from_str("Hello, ").concat(name).concat("! Welcome to NeedlePoint Designer.")
}

/// The time stamp given to new projects.
pub fn chrono_lite_now() -> (stamp: String)
    ensures
        stamp@ == "2025-01-01T00:00:00Z"@,
{
    String::from_str("2025-01-01T00:00:00Z")
}

/// `file` is a fresh project of the given name and canvas: no author, an
/// empty palette, and one empty layer that is visible and unlocked.
pub open spec fn is_new_project(file: NdpFile, name: Seq<char>, width: u32, height: u32, mesh_count: u32) -> bool {
    &&& file.version@ == "1.0"@
    &&& file.metadata.name@ == name
    &&& file.metadata.author is None
    &&& file.metadata.created_at@ == "2025-01-01T00:00:00Z"@
    &&& file.metadata.modified_at@ == "2025-01-01T00:00:00Z"@
    &&& file.metadata.software@ == "NeedlePoint Designer v1.0"@
    &&& file.canvas == (CanvasConfig { width, height, mesh_count })
    &&& file.color_palette@.len() == 0
    &&& file.layers@.len() == 1
    &&& file.layers@[0].id@ == "layer-1"@
    &&& file.layers@[0].name@ == "Layer 1"@
    &&& file.layers@[0].visible
    &&& !file.layers@[0].locked
    &&& file.layers@[0].stitches@.len() == 0
}

/// Starts a project.  It always succeeds.
pub fn create_new_project(name: String, width: u32, height: u32, mesh_count: u32) -> (file: Result<
    NdpFile,
    String,
>)
    ensures
        file matches Ok(f) && is_new_project(f, name@, width, height, mesh_count),
{
    let now = chrono_lite_now();
    let mut layers: Vec<Layer> = Vec::new();
    layers.push(
        Layer {
            id: String::from_str("layer-1"),
            name: String::from_str("Layer 1"),
            visible: true,
            locked: false,
            stitches: Vec::new(),
        },
    );
    Ok(
        NdpFile {
            version: String::from_str("1.0"),
            metadata: NdpMetadata {
                name,
                author: None,
                created_at: now.clone(),
                modified_at: now,
                software: String::from_str("NeedlePoint Designer v1.0"),
            },
            canvas: CanvasConfig { width, height, mesh_count },
            color_palette: Vec::new(),
            layers,
        },
    )
}

} // verus!
